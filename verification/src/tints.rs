//! What holds of the terminal theme.

use vstd::prelude::*;

use crate::json::Model;
use crate::text;
use crate::theme;
use crate::theme::{Colors, PaletteModel, Rgb, Share, Source, ONE};

verus! {

// ---------------------------------------------------------------------------------------------
// Mixing.

proof fn lemma_single(n: int)
    requires
        0 <= n <= 255 * ONE,
    ensures
        -2048 <= theme::single(n) - n <= 2048,
{
    theme::lemma_unit(n);
    let u = theme::unit_from(n, 1);
    let q = n / u;
    let r = n % u;
    assert(n == q * u + r && 0 <= r < u) by (nonlinear_arith)
        requires
            u > 0,
            q == n / u,
            r == n % u,
    ;
    assert((q + 1) * u == q * u + u) by (nonlinear_arith);
}

proof fn lemma_blend(a: int, b: int, amount: int, d: int)
    requires
        d == b - a,
    ensures
        a * (ONE - amount) + b * amount == a * ONE + d * amount,
{
    assert(a * (ONE - amount) + b * amount == a * ONE + d * amount) by (nonlinear_arith)
        requires
            d == b - a,
    ;
}

/// Mixing two channels gives what lies between them in proportion to the amount, rounded to a
/// whole number: the nearest, but for what single precision leaves out.
pub proof fn mixing_is_proportional(a: u8, b: u8, amount: int)
    requires
        0 <= amount <= ONE,
    ensures
        ({
            let exact = a * (ONE - amount) + b * amount;
            let given = theme::mixed_channel(a, b, amount);
            &&& -(ONE / 2 + 8192) <= given * ONE - exact <= ONE / 2 + 8192
            &&& 0 <= given <= 255
        }),
        theme::mixed(Rgb(a, a, a), Rgb(b, b, b), amount).0 == theme::mixed_channel(a, b, amount),
{
    theme::lemma_channel(a, b, amount);
    let d = b - a;
    lemma_blend(a as int, b as int, amount, d);
    if a <= b {
        theme::lemma_scale(d, amount);
        lemma_single(d * amount);
        assert(a * ONE + theme::single(d * amount) <= 255 * ONE);
        lemma_single(a * ONE + theme::single(d * amount));
    } else {
        let e = a - b;
        theme::lemma_scale(e, amount);
        assert(d * amount == -(e * amount)) by (nonlinear_arith)
            requires
                d == -e,
        ;
        lemma_single(e * amount);
        lemma_single(a * ONE - theme::single(e * amount));
    }
}

/// A mixed color has each of its channels mixed from those of the two colors.
pub proof fn channels_are_mixed_apart(a: Rgb, b: Rgb, amount: int)
    requires
        0 <= amount <= ONE,
    ensures
        theme::mixed(a, b, amount).0 == theme::mixed_channel(a.0, b.0, amount),
        theme::mixed(a, b, amount).1 == theme::mixed_channel(a.1, b.1, amount),
        theme::mixed(a, b, amount).2 == theme::mixed_channel(a.2, b.2, amount),
{
    theme::lemma_channel(a.0, b.0, amount);
    theme::lemma_channel(a.1, b.1, amount);
    theme::lemma_channel(a.2, b.2, amount);
}

/// How many hundredths a share is.
pub open spec fn hundredths(share: Share) -> int {
    match share {
        Share::P04 => 4,
        Share::P05 => 5,
        Share::P06 => 6,
        Share::P08 => 8,
        Share::P10 => 10,
        Share::P14 => 14,
        Share::P15 => 15,
        Share::P18 => 18,
        Share::P20 => 20,
        Share::P25 => 25,
        Share::P30 => 30,
        Share::P35 => 35,
        Share::P45 | Share::P75Weak => 45,
        Share::P60 => 60,
        Share::P65 => 65,
        Share::P70 => 70,
        Share::P75 => 75,
        Share::P80 => 80,
        Share::P35Weak => 21,
        Share::Whole => 100,
    }
}

/// A share is the part of the whole that its name says, as exactly as single precision holds it.
pub proof fn shares_are_hundredths(share: Share)
    ensures
        -1000 <= theme::share_of(share) * 100 - hundredths(share) * ONE <= 1000,
        share == Share::Whole ==> theme::share_of(share) == ONE,
{
}

// ---------------------------------------------------------------------------------------------
// Categorical colors.

/// The theme variable with a name.
#[verifier::opaque]
pub open spec fn variable(palette: PaletteModel, name: Seq<char>) -> Option<Model> {
    match theme::palette_theme(palette) {
        Some(Model::Object(config)) => match config["themeVariables"@] {
            Model::Object(vars) => if vars.contains_key(name) {
                Some(vars[name])
            } else {
                None
            },
            _ => None,
        },
        _ => None,
    }
}

/// So much of a color over a background, as text.
#[verifier::opaque]
pub open spec fn over(bg: Rgb, color: Rgb, amount: int) -> Option<Model> {
    Some(Model::Text(theme::hex_text(theme::mixed(bg, color, amount))))
}

proof fn lemma_numbered(name: Seq<char>, i: nat)
    ensures
        theme::numbered(name, i as int).len() > name.len(),
        theme::numbered(name, i as int).take(name.len() as int) == name,
        '0' <= theme::numbered(name, i as int)[name.len() as int] <= '9',
        forall|k: int|
            0 <= k < name.len() ==> #[trigger] theme::numbered(name, i as int)[k] == name[k],
{
    text::numbers_are_written_in_decimal(i);
    let s = theme::numbered(name, i as int);
    assert(s.take(name.len() as int) =~= name);
    assert(s[name.len() as int] == text::decimal(i)[0]);
}

proof fn lemma_numbers_differ(name: Seq<char>, i: nat, j: nat)
    requires
        i != j,
    ensures
        theme::numbered(name, i as int) != theme::numbered(name, j as int),
{
    let a = theme::numbered(name, i as int);
    let b = theme::numbered(name, j as int);
    if a == b {
        assert(a.skip(name.len() as int) =~= text::decimal(i));
        assert(b.skip(name.len() as int) =~= text::decimal(j));
        text::numbers_are_written_in_decimal(i);
        text::numbers_are_written_in_decimal(j);
    }
}

/// What the names of the categories are.
proof fn lemma_names()
    ensures
        "cScale"@ == seq!['c', 'S', 'c', 'a', 'l', 'e'],
        "cScaleLabel"@ == seq!['c', 'S', 'c', 'a', 'l', 'e', 'L', 'a', 'b', 'e', 'l'],
        "pie"@ == seq!['p', 'i', 'e'],
        "git"@ == seq!['g', 'i', 't'],
        "gitBranchLabel"@.len() == 14 && "gitBranchLabel"@[0] == 'g' && "gitBranchLabel"@[3] == 'B',
        "fillType"@.len() == 8 && "fillType"@[0] == 'f',
        "xyChart"@.len() == 7 && "xyChart"@[0] == 'x',
        "radar"@.len() == 5 && "radar"@[0] == 'r',
{
    reveal_strlit("cScale");
    reveal_strlit("cScaleLabel");
    reveal_strlit("pie");
    reveal_strlit("git");
    reveal_strlit("gitBranchLabel");
    reveal_strlit("fillType");
    reveal_strlit("xyChart");
    reveal_strlit("radar");
    assert("cScale"@ =~= seq!['c', 'S', 'c', 'a', 'l', 'e']);
    assert("cScaleLabel"@ =~= seq!['c', 'S', 'c', 'a', 'l', 'e', 'L', 'a', 'b', 'e', 'l']);
    assert("pie"@ =~= seq!['p', 'i', 'e']);
    assert("git"@ =~= seq!['g', 'i', 't']);
}

/// Whether a name is one of a numbered variable's, or starts like one.
spec fn numbered_name(key: Seq<char>, name: Seq<char>) -> bool {
    &&& key.len() > name.len()
    &&& key.take(name.len() as int) == name
    &&& '0' <= key[name.len() as int] <= '9'
}

/// The categories leave other variables alone.
proof fn lemma_categories_leave(
    vars: Map<Seq<char>, Model>,
    colors: Colors,
    n: int,
    key: Seq<char>,
)
    requires
        !numbered_name(key, "cScale"@),
        !numbered_name(key, "cScaleLabel"@),
        !numbered_name(key, "pie"@),
        vars.contains_key(key),
    ensures
        theme::with_categories(vars, colors, n).contains_key(key),
        theme::with_categories(vars, colors, n)[key] == vars[key],
    decreases n,
{
    if n > 0 {
        lemma_categories_leave(vars, colors, n - 1, key);
        lemma_numbered("cScale"@, (n - 1) as nat);
        lemma_numbered("cScaleLabel"@, (n - 1) as nat);
        lemma_numbered("pie"@, n as nat);
    }
}

/// The branches leave other variables alone.
proof fn lemma_branches_leave(
    vars: Map<Seq<char>, Model>,
    colors: Colors,
    n: int,
    key: Seq<char>,
)
    requires
        !numbered_name(key, "git"@),
        !numbered_name(key, "gitBranchLabel"@),
        !numbered_name(key, "fillType"@),
        vars.contains_key(key),
    ensures
        theme::with_branches(vars, colors, n).contains_key(key),
        theme::with_branches(vars, colors, n)[key] == vars[key],
    decreases n,
{
    if n > 0 {
        lemma_branches_leave(vars, colors, n - 1, key);
        lemma_numbered("git"@, (n - 1) as nat);
        lemma_numbered("gitBranchLabel"@, (n - 1) as nat);
        lemma_numbered("fillType"@, (n - 1) as nat);
    }
}

/// The variables of one category.
proof fn lemma_category(vars: Map<Seq<char>, Model>, colors: Colors, n: int, i: int)
    requires
        0 <= i < n,
    ensures
        ({
            let all = theme::with_categories(vars, colors, n);
            let soft = if i < 6 {
                Share::P35
            } else {
                Share::P35Weak
            };
            let strong = if i < 6 {
                Share::P75
            } else {
                Share::P75Weak
            };
            let scale = theme::numbered("cScale"@, i);
            let label = theme::numbered("cScaleLabel"@, i);
            let slice = theme::numbered("pie"@, i + 1);
            &&& all.contains_key(scale) && all[scale] == Model::Text(
                theme::tinted(colors, theme::category(i), soft),
            )
            &&& all.contains_key(label) && all[label] == Model::Text(theme::hex_text(colors.fg))
            &&& all.contains_key(slice) && all[slice] == Model::Text(
                theme::tinted(colors, theme::category(i), strong),
            )
        }),
    decreases n,
{
    lemma_names();
    let k = n - 1;
    lemma_numbered("cScale"@, i as nat);
    lemma_numbered("cScaleLabel"@, i as nat);
    lemma_numbered("pie"@, (i + 1) as nat);
    lemma_numbered("cScale"@, k as nat);
    lemma_numbered("cScaleLabel"@, k as nat);
    lemma_numbered("pie"@, n as nat);
    let scale = theme::numbered("cScale"@, i);
    let label = theme::numbered("cScaleLabel"@, i);
    let slice = theme::numbered("pie"@, i + 1);
    let last_scale = theme::numbered("cScale"@, k);
    let last_label = theme::numbered("cScaleLabel"@, k);
    let last_slice = theme::numbered("pie"@, n);
    assert(scale[0] == 'c' && last_scale[0] == 'c' && label[0] == 'c' && last_label[0] == 'c');
    assert(slice[0] == 'p' && last_slice[0] == 'p');
    assert(label[6] == 'L' && last_label[6] == 'L');
    assert(scale[6] != 'L' && last_scale[6] != 'L');
    if i < k {
        lemma_category(vars, colors, k, i);
        lemma_numbers_differ("cScale"@, i as nat, k as nat);
        lemma_numbers_differ("cScaleLabel"@, i as nat, k as nat);
        lemma_numbers_differ("pie"@, (i + 1) as nat, n as nat);
    }
}

/// The variables of one branch.
proof fn lemma_branch(vars: Map<Seq<char>, Model>, colors: Colors, n: int, i: int)
    requires
        0 <= i < n,
    ensures
        ({
            let all = theme::with_branches(vars, colors, n);
            let branch = theme::numbered("git"@, i);
            let label = theme::numbered("gitBranchLabel"@, i);
            let fill = theme::numbered("fillType"@, i);
            &&& all.contains_key(branch) && all[branch] == Model::Text(
                theme::tinted(colors, theme::category(i), Share::P80),
            )
            &&& all.contains_key(label) && all[label] == Model::Text(theme::hex_text(colors.bg))
            &&& all.contains_key(fill) && all[fill] == Model::Text(
                theme::tinted(colors, theme::category(i), Share::P30),
            )
        }),
    decreases n,
{
    lemma_names();
    let k = n - 1;
    lemma_numbered("git"@, i as nat);
    lemma_numbered("gitBranchLabel"@, i as nat);
    lemma_numbered("fillType"@, i as nat);
    lemma_numbered("git"@, k as nat);
    lemma_numbered("gitBranchLabel"@, k as nat);
    lemma_numbered("fillType"@, k as nat);
    let branch = theme::numbered("git"@, i);
    let label = theme::numbered("gitBranchLabel"@, i);
    let fill = theme::numbered("fillType"@, i);
    let last_branch = theme::numbered("git"@, k);
    let last_label = theme::numbered("gitBranchLabel"@, k);
    let last_fill = theme::numbered("fillType"@, k);
    assert(branch[0] == 'g' && last_branch[0] == 'g' && label[0] == 'g' && last_label[0] == 'g');
    assert(fill[0] == 'f' && last_fill[0] == 'f');
    assert(label[3] == 'B' && last_label[3] == 'B');
    assert(branch[3] != 'B' && last_branch[3] != 'B');
    if i < k {
        lemma_branch(vars, colors, k, i);
        lemma_numbers_differ("git"@, i as nat, k as nat);
        lemma_numbers_differ("gitBranchLabel"@, i as nat, k as nat);
        lemma_numbers_differ("fillType"@, i as nat, k as nat);
    }
}

/// The variables that stand before the categories.
spec fn first_variables(colors: Colors) -> Map<Seq<char>, Model> {
    theme::table_variables(colors, 109).insert(
        "darkMode"@,
        Model::Bool(theme::dark(colors.bg)),
    ).insert("fontFamily"@, Model::Text(crate::fonts::FAMILY@))
}

/// The colors of a palette that has a foreground and a background.
pub open spec fn reported(palette: PaletteModel) -> Colors {
    theme::colors_of(palette, palette.fg.unwrap(), palette.bg.unwrap())
}

/// A theme's variables are looked up among those that make it up.
proof fn lemma_variable(palette: PaletteModel, name: Seq<char>, value: Model)
    requires
        palette.fg is Some && palette.bg is Some,
        theme::theme_variables(reported(palette)).contains_key(name),
        theme::theme_variables(reported(palette))[name] == value,
    ensures
        variable(palette, name) == Some(value),
{
    reveal(variable);
    reveal_strlit("theme");
    reveal_strlit("themeVariables");
    reveal_strlit("packet");
    assert("themeVariables"@.len() == 14);
    assert("packet"@.len() == 6);
    assert("packet"@ != "themeVariables"@);
}

/// A variable that the categories have, in the whole theme.
proof fn lemma_of_categories(palette: PaletteModel, key: Seq<char>, value: Model)
    requires
        palette.fg is Some && palette.bg is Some,
        ({
            let colors = reported(palette);
            let vars = theme::with_categories(first_variables(colors), colors, 12);
            vars.contains_key(key) && vars[key] == value
        }),
        key.len() > 0,
        key[0] != 'g' && key[0] != 'f' && key[0] != 'x' && key[0] != 'r',
    ensures
        variable(palette, key) == Some(value),
{
    let colors = reported(palette);
    let vars = theme::with_categories(first_variables(colors), colors, 12);
    lemma_outside(vars, colors, key);
    lemma_variable(palette, key, value);
}

/// A variable that the branches have, in the whole theme.
proof fn lemma_of_branches(palette: PaletteModel, key: Seq<char>, value: Model)
    requires
        palette.fg is Some && palette.bg is Some,
        ({
            let colors = reported(palette);
            let vars = theme::with_branches(
                theme::with_categories(first_variables(colors), colors, 12),
                colors,
                8,
            );
            vars.contains_key(key) && vars[key] == value
        }),
        key.len() > 0,
        key[0] != 'x' && key[0] != 'r',
    ensures
        variable(palette, key) == Some(value),
{
    lemma_names();
    lemma_variable(palette, key, value);
}

/// A variable of the table whose name cannot be taken for another's, in the whole theme.
pub proof fn lemma_plain(palette: PaletteModel, key: Seq<char>, value: Model)
    requires
        palette.fg is Some && palette.bg is Some,
        theme::table_variables(reported(palette), 109).contains_key(key),
        theme::table_variables(reported(palette), 109)[key] == value,
        key.len() >= 7,
        !(key[0] == 'c' && key[1] == 'S'),
        !(key[0] == 'p' && '0' <= key[3] <= '9'),
        !(key[0] == 'g' && key[1] == 'i'),
        !(key[0] == 'f' && (key[1] == 'i' || key[1] == 'o')),
        key[0] != 'x',
        !(key[0] == 'r' && key[1] == 'a'),
        !(key[0] == 'd' && key[1] == 'a'),
    ensures
        variable(palette, key) == Some(value),
{
    let colors = reported(palette);
    let first = first_variables(colors);
    lemma_not_numbered(key);
    assert(first.contains_key(key) && first[key] == value) by {
        reveal_strlit("darkMode");
        reveal_strlit("fontFamily");
    }
    lemma_categories_leave(first, colors, 12, key);
    let vars = theme::with_categories(first, colors, 12);
    lemma_branches_leave(vars, colors, 8, key);
    assert(key != "xyChart"@ && key != "radar"@) by {
        lemma_names();
    }
    lemma_variable(palette, key, value);
}

/// A name that cannot be taken for a numbered one is none.
proof fn lemma_not_numbered(key: Seq<char>)
    requires
        key.len() >= 7,
        !(key[0] == 'c' && key[1] == 'S'),
        !(key[0] == 'p' && '0' <= key[3] <= '9'),
        !(key[0] == 'g' && key[1] == 'i'),
        !(key[0] == 'f' && key[1] == 'i'),
    ensures
        !numbered_name(key, "cScale"@),
        !numbered_name(key, "cScaleLabel"@),
        !numbered_name(key, "pie"@),
        !numbered_name(key, "git"@),
        !numbered_name(key, "gitBranchLabel"@),
        !numbered_name(key, "fillType"@),
{
    lemma_names();
    reveal_strlit("gitBranchLabel");
    reveal_strlit("fillType");
    assert forall|name: Seq<char>| name.len() > 1 && #[trigger] numbered_name(key, name) implies key[0]
        == name[0] && key[1] == name[1] by {
        assert(key.take(name.len() as int)[0] == key[0]);
        assert(key.take(name.len() as int)[1] == key[1]);
    }
}

/// A share of a color over the background.
pub proof fn lemma_over(colors: Colors, source: Source, share: Share)
    ensures
        Some(Model::Text(theme::tinted(colors, source, share))) == over(
            colors.bg,
            theme::picked(colors, source),
            theme::share_of(share) as int,
        ),
{
    reveal(over);
}

/// How strong the categories are.
spec fn strong(i: int) -> Share {
    if i < 6 {
        Share::P75
    } else {
        Share::P75Weak
    }
}

/// How strong the backgrounds of the categories are.
spec fn soft(i: int) -> Share {
    if i < 6 {
        Share::P35
    } else {
        Share::P35Weak
    }
}

/// The numbered variables of the categories, in the whole theme.
#[verifier::spinoff_prover]
#[verifier::rlimit(40)]
proof fn lemma_slice(palette: PaletteModel, i: int)
    requires
        palette.fg is Some && palette.bg is Some,
        0 <= i < 12,
    ensures
        ({
            let colors = reported(palette);
            let color = theme::picked(colors, theme::category(i));
            &&& variable(palette, "cScale"@ + text::decimal(i as nat)) == over(
                colors.bg,
                color,
                theme::share_of(soft(i)) as int,
            )
            &&& variable(palette, "cScaleLabel"@ + text::decimal(i as nat)) == Some(
                Model::Text(theme::hex_text(colors.fg)),
            )
            &&& variable(palette, "pie"@ + text::decimal((i + 1) as nat)) == over(
                colors.bg,
                color,
                theme::share_of(strong(i)) as int,
            )
        }),
{
    let colors = reported(palette);
    let first = first_variables(colors);
    let vars = theme::with_categories(first, colors, 12);
    let scale = theme::numbered("cScale"@, i);
    let label = theme::numbered("cScaleLabel"@, i);
    let slice = theme::numbered("pie"@, i + 1);
    assert(scale.len() > 0 && label.len() > 0 && slice.len() > 0 && scale[0] == 'c' && label[0]
        == 'c' && slice[0] == 'p') by {
        lemma_names();
        lemma_numbered("cScale"@, i as nat);
        lemma_numbered("cScaleLabel"@, i as nat);
        lemma_numbered("pie"@, (i + 1) as nat);
    }
    lemma_category(first, colors, 12, i);
    lemma_of_categories(palette, scale, vars[scale]);
    lemma_of_categories(palette, label, vars[label]);
    lemma_of_categories(palette, slice, vars[slice]);
    lemma_over(colors, theme::category(i), soft(i));
    lemma_over(colors, theme::category(i), strong(i));
}

/// What is added after the categories has other names.
proof fn lemma_outside(vars: Map<Seq<char>, Model>, colors: Colors, key: Seq<char>)
    requires
        vars.contains_key(key),
        key.len() > 0,
        key[0] != 'g' && key[0] != 'f' && key[0] != 'x' && key[0] != 'r',
    ensures
        ({
            let all = theme::with_branches(vars, colors, 8).insert(
                "xyChart"@,
                Model::Object(theme::chart_colors(colors)),
            ).insert("radar"@, Model::Object(theme::radar_colors(colors)));
            all.contains_key(key) && all[key] == vars[key]
        }),
{
    lemma_names();
    if numbered_name(key, "git"@) {
        assert(key.take(3)[0] == key[0]);
    }
    if numbered_name(key, "gitBranchLabel"@) {
        assert(key.take(14)[0] == key[0]);
    }
    if numbered_name(key, "fillType"@) {
        assert(key.take(8)[0] == key[0]);
    }
    lemma_branches_leave(vars, colors, 8, key);
}

/// Pie slices, timeline sections and branches take the terminal's blue, magenta, green, yellow,
/// cyan and red, in this order, over its background: slices by 75 hundredths, sections by 35,
/// branches by 80 and their fills by 30. So neighbors can be told apart.
pub proof fn categories_take_the_ansi_colors_in_turn(palette: PaletteModel, i: int)
    requires
        palette.fg is Some && palette.bg is Some,
        palette.ansi.len() == 6,
        forall|k: int| 0 <= k < 6 ==> (#[trigger] palette.ansi[k]) is Some,
        0 <= i < 6,
    ensures
        ({
            let bg = palette.bg.unwrap();
            // Red, green, yellow, blue, magenta and cyan are reported in this order.
            let color = palette.ansi[seq![3int, 4, 1, 2, 5, 0][i]].unwrap();
            let n = text::decimal(i as nat);
            &&& variable(palette, "pie"@ + text::decimal((i + 1) as nat)) == over(
                bg,
                color,
                201_326_592,
            )
            &&& variable(palette, "cScale"@ + n) == over(bg, color, 93_952_408)
            &&& variable(palette, "cScaleLabel"@ + n) == Some(
                Model::Text(theme::hex_text(palette.fg.unwrap())),
            )
            &&& variable(palette, "git"@ + n) == over(bg, color, 214_748_368)
            &&& variable(palette, "fillType"@ + n) == over(bg, color, 80_530_640)
            &&& variable(palette, "gitBranchLabel"@ + n) == Some(Model::Text(theme::hex_text(bg)))
        }),
{
    lemma_slice(palette, i);
    lemma_tree(palette, i);
    let order = seq![3int, 4, 1, 2, 5, 0];
    assert(order[0] == 3 && order[1] == 4 && order[2] == 1 && order[3] == 2 && order[4] == 5
        && order[5] == 0);
    assert(palette.ansi[0] is Some && palette.ansi[1] is Some && palette.ansi[2] is Some
        && palette.ansi[3] is Some && palette.ansi[4] is Some && palette.ansi[5] is Some);
}

/// The numbered variables of the branches, in the whole theme.
#[verifier::spinoff_prover]
proof fn lemma_tree(palette: PaletteModel, i: int)
    requires
        palette.fg is Some && palette.bg is Some,
        0 <= i < 8,
    ensures
        ({
            let colors = reported(palette);
            let color = theme::picked(colors, theme::category(i));
            &&& variable(palette, "git"@ + text::decimal(i as nat)) == over(
                colors.bg,
                color,
                theme::share_of(Share::P80) as int,
            )
            &&& variable(palette, "gitBranchLabel"@ + text::decimal(i as nat)) == Some(
                Model::Text(theme::hex_text(colors.bg)),
            )
            &&& variable(palette, "fillType"@ + text::decimal(i as nat)) == over(
                colors.bg,
                color,
                theme::share_of(Share::P30) as int,
            )
        }),
{
    let colors = reported(palette);
    let vars = theme::with_categories(first_variables(colors), colors, 12);
    lemma_branch(vars, colors, 8, i);
    lemma_names();
    let branch = theme::numbered("git"@, i);
    let label = theme::numbered("gitBranchLabel"@, i);
    let fill = theme::numbered("fillType"@, i);
    lemma_numbered("git"@, i as nat);
    lemma_numbered("gitBranchLabel"@, i as nat);
    lemma_numbered("fillType"@, i as nat);
    assert(branch[0] == 'g' && label[0] == 'g' && fill[0] == 'f');
    let all = theme::with_branches(vars, colors, 8);
    lemma_of_branches(palette, branch, all[branch]);
    lemma_of_branches(palette, label, all[label]);
    lemma_of_branches(palette, fill, all[fill]);
    lemma_over(colors, theme::category(i), Share::P80);
    lemma_over(colors, theme::category(i), Share::P30);
}

/// After the sixth category the colors come again, weaker, and after the sixth branch as they
/// are.
pub proof fn categories_come_again(palette: PaletteModel, i: int)
    requires
        palette.fg is Some && palette.bg is Some,
        palette.ansi.len() == 6,
        forall|k: int| 0 <= k < 6 ==> (#[trigger] palette.ansi[k]) is Some,
        6 <= i < 12,
    ensures
        ({
            let bg = palette.bg.unwrap();
            let color = palette.ansi[seq![3int, 4, 1, 2, 5, 0][i - 6]].unwrap();
            let n = text::decimal(i as nat);
            &&& variable(palette, "pie"@ + text::decimal((i + 1) as nat)) == over(
                bg,
                color,
                120_795_960,
            )
            &&& variable(palette, "cScale"@ + n) == over(bg, color, 56_371_448)
            &&& i < 8 ==> variable(palette, "git"@ + n) == over(bg, color, 214_748_368)
        }),
{
    lemma_slice(palette, i);
    if i < 8 {
        lemma_tree(palette, i);
    }
    let order = seq![3int, 4, 1, 2, 5, 0];
    assert(order[0] == 3 && order[1] == 4 && order[2] == 1 && order[3] == 2 && order[4] == 5
        && order[5] == 0);
    assert(palette.ansi[0] is Some && palette.ansi[1] is Some && palette.ansi[2] is Some
        && palette.ansi[3] is Some && palette.ansi[4] is Some && palette.ansi[5] is Some);
}

/// There is a theme exactly if the terminal reported its foreground and its background.
pub proof fn themes_need_both_colors(palette: PaletteModel)
    ensures
        theme::palette_theme(palette) is Some <==> palette.fg is Some && palette.bg is Some,
{
}

/// A color that the terminal reported is kept.
pub proof fn reported_colors_are_kept(palette: PaletteModel)
    ensures
        reported(palette).fg == palette.fg.unwrap(),
        reported(palette).bg == palette.bg.unwrap(),
        palette.ansi[0] is Some ==> reported(palette).red == palette.ansi[0].unwrap(),
        palette.ansi[1] is Some ==> reported(palette).green == palette.ansi[1].unwrap(),
        palette.ansi[2] is Some ==> reported(palette).yellow == palette.ansi[2].unwrap(),
        palette.ansi[3] is Some ==> reported(palette).blue == palette.ansi[3].unwrap(),
        palette.ansi[4] is Some ==> reported(palette).magenta == palette.ansi[4].unwrap(),
        palette.ansi[5] is Some ==> reported(palette).cyan == palette.ansi[5].unwrap(),
{
}

/// A color that the terminal did not report is one that can be seen on its background: there is
/// one for dark backgrounds and one for light ones.
pub proof fn other_colors_suit_the_background(palette: PaletteModel)
    ensures
        theme::dark(palette.bg.unwrap()) ==> {
            &&& palette.ansi[0] is None ==> reported(palette).red == Rgb(0xe0, 0x6c, 0x75)
            &&& palette.ansi[1] is None ==> reported(palette).green == Rgb(0x98, 0xc3, 0x79)
            &&& palette.ansi[2] is None ==> reported(palette).yellow == Rgb(0xe5, 0xc0, 0x7b)
            &&& palette.ansi[3] is None ==> reported(palette).blue == Rgb(0x61, 0xaf, 0xef)
            &&& palette.ansi[4] is None ==> reported(palette).magenta == Rgb(0xc6, 0x78, 0xdd)
            &&& palette.ansi[5] is None ==> reported(palette).cyan == Rgb(0x56, 0xb6, 0xc2)
        },
        !theme::dark(palette.bg.unwrap()) ==> {
            &&& palette.ansi[0] is None ==> reported(palette).red == Rgb(0xe4, 0x56, 0x49)
            &&& palette.ansi[1] is None ==> reported(palette).green == Rgb(0x50, 0xa1, 0x4f)
            &&& palette.ansi[2] is None ==> reported(palette).yellow == Rgb(0xc1, 0x84, 0x01)
            &&& palette.ansi[3] is None ==> reported(palette).blue == Rgb(0x40, 0x78, 0xf2)
            &&& palette.ansi[4] is None ==> reported(palette).magenta == Rgb(0xa6, 0x26, 0xa4)
            &&& palette.ansi[5] is None ==> reported(palette).cyan == Rgb(0x01, 0x84, 0xbc)
        },
{
}

/// A reply to a color query is recorded as the color that was asked for, and changes no other.
pub proof fn replies_record_their_color(palette: PaletteModel, index: u16, color: Rgb)
    requires
        palette.ansi.len() == 6,
    ensures
        ({
            let then = theme::recorded(palette, index, color);
            &&& then.fg == if index == 10 {
                Some(color)
            } else {
                palette.fg
            }
            &&& then.bg == if index == 11 {
                Some(color)
            } else {
                palette.bg
            }
            &&& then.ansi.len() == 6
            &&& forall|i: int|
                0 <= i < 6 ==> #[trigger] then.ansi[i] == if index == i + 1 {
                    Some(color)
                } else {
                    palette.ansi[i]
                }
        }),
{
}

// ---------------------------------------------------------------------------------------------
// Luminance.

/// A channel's intensity runs from 0 to a billion. It grows in proportion up to a channel value of
/// 10, and from there on each step is larger than the one before.
#[verifier::spinoff_prover]
#[verifier::rlimit(40)]
pub proof fn intensity_grows_with_the_channel(c: int)
    requires
        0 <= c < 254,
    ensures
        theme::LINEAR@[0] == 0,
        theme::LINEAR@[255] == 1_000_000_000,
        theme::LINEAR@[c] < theme::LINEAR@[c + 1],
        theme::LINEAR@[c + 1] < theme::LINEAR@[c + 2],
        c <= 10 ==> theme::LINEAR@[c] == c * 303_527,
        c >= 9 ==> theme::LINEAR@[c + 1] - theme::LINEAR@[c] < theme::LINEAR@[c + 2]
            - theme::LINEAR@[c + 1],
{
}

proof fn lemma_linear(a: int, b: int)
    requires
        0 <= a <= b <= 255,
    ensures
        theme::LINEAR@[a] <= theme::LINEAR@[b],
    decreases b - a,
{
    if a < b {
        lemma_linear(a, b - 1);
        intensity_grows_with_the_channel(if b >= 2 {
            b - 2
        } else {
            0
        });
    }
}

/// Lighter colors are never dark where darker ones are light. White is as light as a color can be,
/// and green counts for more than red, and red for more than blue.
pub proof fn lighter_channels_make_lighter_colors(a: Rgb, b: Rgb, v: u8)
    requires
        a.0 <= b.0,
        a.1 <= b.1,
        a.2 <= b.2,
    ensures
        theme::relative_luminance(a) <= theme::relative_luminance(b),
        theme::dark(b) ==> theme::dark(a),
        theme::relative_luminance(Rgb(0, 0, 0)) == 0,
        theme::relative_luminance(Rgb(255, 255, 255)) == 10_000_000_000_000,
        theme::relative_luminance(a) == theme::relative_luminance(Rgb(a.0, 0, 0))
            + theme::relative_luminance(Rgb(0, a.1, 0)) + theme::relative_luminance(
            Rgb(0, 0, a.2),
        ),
        10_000 * theme::relative_luminance(Rgb(v, 0, 0)) == 2126 * theme::relative_luminance(
            Rgb(v, v, v),
        ),
        10_000 * theme::relative_luminance(Rgb(0, v, 0)) == 7152 * theme::relative_luminance(
            Rgb(v, v, v),
        ),
        10_000 * theme::relative_luminance(Rgb(0, 0, v)) == 722 * theme::relative_luminance(
            Rgb(v, v, v),
        ),
{
    lemma_linear(a.0 as int, b.0 as int);
    lemma_linear(a.1 as int, b.1 as int);
    lemma_linear(a.2 as int, b.2 as int);
    intensity_grows_with_the_channel(0);
}

#[verifier::spinoff_prover]
proof fn lemma_thresholds()
    ensures
        theme::LINEAR@[0] == 0,
        10_000 * theme::LINEAR@[123] < theme::DARK_BELOW <= 10_000 * theme::LINEAR@[124],
        2126 * theme::LINEAR@[248] < theme::DARK_BELOW <= 2126 * theme::LINEAR@[249],
        7152 * theme::LINEAR@[144] < theme::DARK_BELOW <= 7152 * theme::LINEAR@[145],
        722 * theme::LINEAR@[255] < theme::DARK_BELOW,
{
}

/// A gray is dark exactly up to a value of 123, a red up to 248 and a green up to 144. Blues are
/// always dark.
pub proof fn dark_colors_are_below_a_fifth(v: u8)
    ensures
        theme::dark(Rgb(v, v, v)) == (v <= 123),
        theme::dark(Rgb(v, 0, 0)) == (v <= 248),
        theme::dark(Rgb(0, v, 0)) == (v <= 144),
        theme::dark(Rgb(0, 0, v)),
{
    lemma_thresholds();
    lemma_linear(v as int, 255);
    if v <= 123 {
        lemma_linear(v as int, 123);
    } else {
        lemma_linear(124, v as int);
    }
    if v <= 144 {
        lemma_linear(v as int, 144);
    } else {
        lemma_linear(145, v as int);
    }
    if v <= 248 {
        lemma_linear(v as int, 248);
    } else {
        lemma_linear(249, v as int);
    }
}

} // verus!
