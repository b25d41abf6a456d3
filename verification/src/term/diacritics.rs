//! The combining characters that number placeholder rows and columns.

use vstd::prelude::*;

verus! {

/// Diacritics of combining class 230 without decompositions, in code point order: the n-th
/// stands for the number n.
pub const DIACRITICS: &'static str = "\
    \u{305}\u{30d}\u{30e}\u{310}\u{312}\u{33d}\u{33e}\u{33f}\u{346}\u{34a}\u{34b}\u{34c}\
    \u{350}\u{351}\u{352}\u{357}\u{35b}\u{363}\u{364}\u{365}\u{366}\u{367}\u{368}\u{369}\
    \u{36a}\u{36b}\u{36c}\u{36d}\u{36e}\u{36f}\u{483}\u{484}\u{485}\u{486}\u{487}\u{592}\
    \u{593}\u{594}\u{595}\u{597}\u{598}\u{599}\u{59c}\u{59d}\u{59e}\u{59f}\u{5a0}\u{5a1}\
    \u{5a8}\u{5a9}\u{5ab}\u{5ac}\u{5af}\u{5c4}\u{610}\u{611}\u{612}\u{613}\u{614}\u{615}\
    \u{616}\u{617}\u{657}\u{658}\u{659}\u{65a}\u{65b}\u{65d}\u{65e}\u{6d6}\u{6d7}\u{6d8}\
    \u{6d9}\u{6da}\u{6db}\u{6dc}\u{6df}\u{6e0}\u{6e1}\u{6e2}\u{6e4}\u{6e7}\u{6e8}\u{6eb}\
    \u{6ec}\u{730}\u{732}\u{733}\u{735}\u{736}\u{73a}\u{73d}\u{73f}\u{740}\u{741}\u{743}\
    \u{745}\u{747}\u{749}\u{74a}\u{7eb}\u{7ec}\u{7ed}\u{7ee}\u{7ef}\u{7f0}\u{7f1}\u{7f3}\
    \u{816}\u{817}\u{818}\u{819}\u{81b}\u{81c}\u{81d}\u{81e}\u{81f}\u{820}\u{821}\u{822}\
    \u{823}\u{825}\u{826}\u{827}\u{829}\u{82a}\u{82b}\u{82c}\u{82d}\u{951}\u{953}\u{954}\
    \u{f82}\u{f83}\u{f86}\u{f87}\u{135d}\u{135e}\u{135f}\u{17dd}\u{193a}\u{1a17}\u{1a75}\
    \u{1a76}\u{1a77}\u{1a78}\u{1a79}\u{1a7a}\u{1a7b}\u{1a7c}\u{1b6b}\u{1b6d}\u{1b6e}\u{1b6f}\
    \u{1b70}\u{1b71}\u{1b72}\u{1b73}\u{1cd0}\u{1cd1}\u{1cd2}\u{1cda}\u{1cdb}\u{1ce0}\u{1dc0}\
    \u{1dc1}\u{1dc3}\u{1dc4}\u{1dc5}\u{1dc6}\u{1dc7}\u{1dc8}\u{1dc9}\u{1dcb}\u{1dcc}\u{1dd1}\
    \u{1dd2}\u{1dd3}\u{1dd4}\u{1dd5}\u{1dd6}\u{1dd7}\u{1dd8}\u{1dd9}\u{1dda}\u{1ddb}\u{1ddc}\
    \u{1ddd}\u{1dde}\u{1ddf}\u{1de0}\u{1de1}\u{1de2}\u{1de3}\u{1de4}\u{1de5}\u{1de6}\u{1dfe}\
    \u{20d0}\u{20d1}\u{20d4}\u{20d5}\u{20d6}\u{20d7}\u{20db}\u{20dc}\u{20e1}\u{20e7}\u{20e9}\
    \u{20f0}\u{2cef}\u{2cf0}\u{2cf1}\u{2de0}\u{2de1}\u{2de2}\u{2de3}\u{2de4}\u{2de5}\u{2de6}\
    \u{2de7}\u{2de8}\u{2de9}\u{2dea}\u{2deb}\u{2dec}\u{2ded}\u{2dee}\u{2def}\u{2df0}\u{2df1}\
    \u{2df2}\u{2df3}\u{2df4}\u{2df5}\u{2df6}\u{2df7}\u{2df8}\u{2df9}\u{2dfa}\u{2dfb}\u{2dfc}\
    \u{2dfd}\u{2dfe}\u{2dff}\u{a66f}\u{a67c}\u{a67d}\u{a6f0}\u{a6f1}\u{a8e0}\u{a8e1}\u{a8e2}\
    \u{a8e3}\u{a8e4}\u{a8e5}\u{a8e6}\u{a8e7}\u{a8e8}\u{a8e9}\u{a8ea}\u{a8eb}\u{a8ec}\u{a8ed}\
    \u{a8ee}\u{a8ef}\u{a8f0}\u{a8f1}\u{aab0}\u{aab2}\u{aab3}\u{aab7}\u{aab8}\u{aabe}\u{aabf}\
    \u{aac1}\u{fe20}\u{fe21}\u{fe22}\u{fe23}\u{fe24}\u{fe25}\u{fe26}\u{10a0f}\u{10a38}\
    \u{1d185}\u{1d186}\u{1d187}\u{1d188}\u{1d189}\u{1d1aa}\u{1d1ab}\u{1d1ac}\u{1d1ad}\
    \u{1d242}\u{1d243}\u{1d244}\
    ";

/// Whether each of the first `n` characters comes after the one before it.
spec fn ascending(s: Seq<char>, n: nat) -> bool
    decreases n,
{
    n < 2 || (s[n - 2] < s[n - 1] && ascending(s, (n - 1) as nat))
}

proof fn lemma_ascending(s: Seq<char>, n: nat, i: int, j: int)
    requires
        ascending(s, n),
        0 <= i < j < n,
    ensures
        s[i] < s[j],
    decreases n,
{
    if j < n - 1 {
        lemma_ascending(s, (n - 1) as nat, i, j);
    } else if i < j - 1 {
        lemma_ascending(s, (n - 1) as nat, i, j - 1);
    }
}

#[verifier::rlimit(40)]
#[verifier::spinoff_prover]
proof fn lemma_marks()
    ensures
        DIACRITICS@.len() == 297,
        ascending(DIACRITICS@, 297),
{
    reveal_strlit(
        "\
        \u{305}\u{30d}\u{30e}\u{310}\u{312}\u{33d}\u{33e}\u{33f}\u{346}\u{34a}\u{34b}\u{34c}\
        \u{350}\u{351}\u{352}\u{357}\u{35b}\u{363}\u{364}\u{365}\u{366}\u{367}\u{368}\u{369}\
        \u{36a}\u{36b}\u{36c}\u{36d}\u{36e}\u{36f}\u{483}\u{484}\u{485}\u{486}\u{487}\u{592}\
        \u{593}\u{594}\u{595}\u{597}\u{598}\u{599}\u{59c}\u{59d}\u{59e}\u{59f}\u{5a0}\u{5a1}\
        \u{5a8}\u{5a9}\u{5ab}\u{5ac}\u{5af}\u{5c4}\u{610}\u{611}\u{612}\u{613}\u{614}\u{615}\
        \u{616}\u{617}\u{657}\u{658}\u{659}\u{65a}\u{65b}\u{65d}\u{65e}\u{6d6}\u{6d7}\u{6d8}\
        \u{6d9}\u{6da}\u{6db}\u{6dc}\u{6df}\u{6e0}\u{6e1}\u{6e2}\u{6e4}\u{6e7}\u{6e8}\u{6eb}\
        \u{6ec}\u{730}\u{732}\u{733}\u{735}\u{736}\u{73a}\u{73d}\u{73f}\u{740}\u{741}\u{743}\
        \u{745}\u{747}\u{749}\u{74a}\u{7eb}\u{7ec}\u{7ed}\u{7ee}\u{7ef}\u{7f0}\u{7f1}\u{7f3}\
        \u{816}\u{817}\u{818}\u{819}\u{81b}\u{81c}\u{81d}\u{81e}\u{81f}\u{820}\u{821}\u{822}\
        \u{823}\u{825}\u{826}\u{827}\u{829}\u{82a}\u{82b}\u{82c}\u{82d}\u{951}\u{953}\u{954}\
        \u{f82}\u{f83}\u{f86}\u{f87}\u{135d}\u{135e}\u{135f}\u{17dd}\u{193a}\u{1a17}\u{1a75}\
        \u{1a76}\u{1a77}\u{1a78}\u{1a79}\u{1a7a}\u{1a7b}\u{1a7c}\u{1b6b}\u{1b6d}\u{1b6e}\u{1b6f}\
        \u{1b70}\u{1b71}\u{1b72}\u{1b73}\u{1cd0}\u{1cd1}\u{1cd2}\u{1cda}\u{1cdb}\u{1ce0}\u{1dc0}\
        \u{1dc1}\u{1dc3}\u{1dc4}\u{1dc5}\u{1dc6}\u{1dc7}\u{1dc8}\u{1dc9}\u{1dcb}\u{1dcc}\u{1dd1}\
        \u{1dd2}\u{1dd3}\u{1dd4}\u{1dd5}\u{1dd6}\u{1dd7}\u{1dd8}\u{1dd9}\u{1dda}\u{1ddb}\u{1ddc}\
        \u{1ddd}\u{1dde}\u{1ddf}\u{1de0}\u{1de1}\u{1de2}\u{1de3}\u{1de4}\u{1de5}\u{1de6}\u{1dfe}\
        \u{20d0}\u{20d1}\u{20d4}\u{20d5}\u{20d6}\u{20d7}\u{20db}\u{20dc}\u{20e1}\u{20e7}\u{20e9}\
        \u{20f0}\u{2cef}\u{2cf0}\u{2cf1}\u{2de0}\u{2de1}\u{2de2}\u{2de3}\u{2de4}\u{2de5}\u{2de6}\
        \u{2de7}\u{2de8}\u{2de9}\u{2dea}\u{2deb}\u{2dec}\u{2ded}\u{2dee}\u{2def}\u{2df0}\u{2df1}\
        \u{2df2}\u{2df3}\u{2df4}\u{2df5}\u{2df6}\u{2df7}\u{2df8}\u{2df9}\u{2dfa}\u{2dfb}\u{2dfc}\
        \u{2dfd}\u{2dfe}\u{2dff}\u{a66f}\u{a67c}\u{a67d}\u{a6f0}\u{a6f1}\u{a8e0}\u{a8e1}\u{a8e2}\
        \u{a8e3}\u{a8e4}\u{a8e5}\u{a8e6}\u{a8e7}\u{a8e8}\u{a8e9}\u{a8ea}\u{a8eb}\u{a8ec}\u{a8ed}\
        \u{a8ee}\u{a8ef}\u{a8f0}\u{a8f1}\u{aab0}\u{aab2}\u{aab3}\u{aab7}\u{aab8}\u{aabe}\u{aabf}\
        \u{aac1}\u{fe20}\u{fe21}\u{fe22}\u{fe23}\u{fe24}\u{fe25}\u{fe26}\u{10a0f}\u{10a38}\
        \u{1d185}\u{1d186}\u{1d187}\u{1d188}\u{1d189}\u{1d1aa}\u{1d1ab}\u{1d1ac}\u{1d1ad}\
        \u{1d242}\u{1d243}\u{1d244}\
        ",
    );
    assert(ascending(DIACRITICS@, 33)) by {
        reveal_with_fuel(ascending, 35);
    }
    assert(ascending(DIACRITICS@, 66)) by {
        reveal_with_fuel(ascending, 35);
    }
    assert(ascending(DIACRITICS@, 99)) by {
        reveal_with_fuel(ascending, 35);
    }
    assert(ascending(DIACRITICS@, 132)) by {
        reveal_with_fuel(ascending, 35);
    }
    assert(ascending(DIACRITICS@, 165)) by {
        reveal_with_fuel(ascending, 35);
    }
    assert(ascending(DIACRITICS@, 198)) by {
        reveal_with_fuel(ascending, 35);
    }
    assert(ascending(DIACRITICS@, 231)) by {
        reveal_with_fuel(ascending, 35);
    }
    assert(ascending(DIACRITICS@, 264)) by {
        reveal_with_fuel(ascending, 35);
    }
    assert(ascending(DIACRITICS@, 297)) by {
        reveal_with_fuel(ascending, 35);
    }
}

/// There are 297 of them.
pub proof fn lemma_count()
    ensures
        DIACRITICS@.len() == 297,
{
    lemma_marks();
}

/// No two of them are the same, so cells are told apart by those of their row and column.
pub proof fn cells_are_told_apart(i: int, j: int)
    requires
        0 <= i < DIACRITICS@.len(),
        0 <= j < DIACRITICS@.len(),
        DIACRITICS@[i] == DIACRITICS@[j],
    ensures
        i == j,
{
    lemma_marks();
    if i < j {
        lemma_ascending(DIACRITICS@, 297, i, j);
    }
    if j < i {
        lemma_ascending(DIACRITICS@, 297, j, i);
    }
}

} // verus!
