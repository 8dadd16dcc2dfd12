//! Files that the compiler reads: either built into the widget library
//! (under `builtin:/`) or on disk.

use vstd::prelude::*;
use crate::lookup::{first_index, is_first, lemma_first_index_found, lemma_first_index_none};
use crate::paths::{resolve_path, resolved_components, char_vecs};
use crate::text::{chars_of, chars_eq, str_is, str_eq};

verus! {

/// A file of the compiler's view: its canonical path and, for a file of the
/// builtin widget library, the contents that are compiled in.
pub struct VirtualFile {
    pub canon_path: String,
    pub builtin_contents: Option<&'static [u8]>,
}

impl Clone for VirtualFile {
    fn clone(&self) -> (r: Self)
        ensures
            r == *self,
    {
        VirtualFile { canon_path: self.canon_path.clone(), builtin_contents: self.builtin_contents }
    }
}

impl VirtualFile {
    /// Whether the file comes from the builtin widget library.
    pub fn is_builtin(&self) -> (r: bool)
        ensures
            r == self.builtin_contents is Some,
    {
        self.builtin_contents.is_some()
    }
}

/// One file of the builtin widget library.
pub struct BuiltinFile<'a> {
    pub path: &'a str,
    pub contents: &'static [u8],
}

/// The files of one style of the builtin widget library.
pub struct BuiltinDirectory<'a> {
    pub style: &'a str,
    pub files: Vec<BuiltinFile<'a>>,
}

/// Style names that stand for another style of the library.
pub open spec fn alias_table() -> Seq<(Seq<char>, Seq<char>)> {
    seq![
        ("cosmic-light"@, "cosmic"@),
        ("cosmic-dark"@, "cosmic"@),
        ("fluent-light"@, "fluent"@),
        ("fluent-dark"@, "fluent"@),
        ("fluent2-light"@, "fluent2"@),
        ("fluent2-dark"@, "fluent2"@),
        ("material-light"@, "material"@),
        ("material-dark"@, "material"@),
        ("cupertino-light"@, "cupertino"@),
        ("cupertino-dark"@, "cupertino"@),
        ("retrotone-light"@, "retrotone"@),
        ("retrotone-dark"@, "retrotone"@),
    ]
}

/// The alias table, as string slices.
fn aliases() -> (v: Vec<(&'static str, &'static str)>)
    ensures
        v@.len() == alias_table().len(),
        forall|i: int|
            0 <= i < v@.len() ==> (#[trigger] v@[i]).0@ == alias_table()[i].0 && v@[i].1@
                == alias_table()[i].1,
{
    let v = vec![
        ("cosmic-light", "cosmic"),
        ("cosmic-dark", "cosmic"),
        ("fluent-light", "fluent"),
        ("fluent-dark", "fluent"),
        ("fluent2-light", "fluent2"),
        ("fluent2-dark", "fluent2"),
        ("material-light", "material"),
        ("material-dark", "material"),
        ("cupertino-light", "cupertino"),
        ("cupertino-dark", "cupertino"),
        ("retrotone-light", "retrotone"),
        ("retrotone-dark", "retrotone"),
    ];
    v
}

/// The style that the alias `name` stands for, if `name` is an alias.
pub open spec fn alias_target(name: Seq<char>) -> Option<Seq<char>> {
    match first_index(alias_table(), alias_named(name)) {
        Some(i) => Some(alias_table()[i].1),
        None => None,
    }
}

/// Components with a leading alias replaced by the style it stands for.
pub open spec fn with_alias(comps: Seq<Seq<char>>) -> Seq<Seq<char>> {
    if comps.len() > 0 && alias_target(comps[0]) is Some {
        comps.update(0, alias_target(comps[0])->0)
    } else {
        comps
    }
}

/// Matches the alias entry named `name`.
pub open spec fn alias_named(name: Seq<char>) -> spec_fn((Seq<char>, Seq<char>)) -> bool {
    |a: (Seq<char>, Seq<char>)| a.0 == name
}

/// Matches the library directory of the style `name`.
pub open spec fn style_named<'a>(name: Seq<char>) -> spec_fn(BuiltinDirectory<'a>) -> bool {
    |d: BuiltinDirectory<'a>| d.style@ == name
}

/// Matches the library file at `name`.
pub open spec fn file_named<'a>(name: Seq<char>) -> spec_fn(BuiltinFile<'a>) -> bool {
    |f: BuiltinFile<'a>| f.path@ == name
}

/// `s` without the separators it starts with.
pub open spec fn skip_separators(s: Seq<char>) -> Seq<char>
    decreases s.len(),
{
    if s.len() > 0 && s[0] == '/' {
        skip_separators(s.drop_first())
    } else {
        s
    }
}

/// The relative path that follows the leading `builtin:` component of `p`,
/// if `p` starts with that component (it is then a path into the widget
/// library): what `std::path::Path::strip_prefix` leaves of `p` when it
/// strips `builtin:/`.
pub open spec fn builtin_remainder(p: Seq<char>) -> Option<Seq<char>> {
    if p.len() >= 8 && p.take(8) == "builtin:"@ && (p.len() == 8 || p[8] == '/') {
        Some(skip_separators(p.skip(8)))
    } else {
        None
    }
}

/// Where a path into the widget library leads, as a directory index and a
/// file index of `lib`: its components, with `..` resolved and a leading
/// alias replaced, must be exactly a style name and a file name of the first
/// directory of that style.
pub open spec fn builtin_location<'a>(lib: Seq<BuiltinDirectory<'a>>, path: Seq<char>) -> Option<(int, int)> {
    let comps = with_alias(resolved_components(path));
    if comps.len() == 2 {
        match first_index(lib, style_named(comps[0])) {
            Some(d) => match first_index(lib[d].files@, file_named(comps[1])) {
                Some(f) => Some((d, f)),
                None => None,
            },
            None => None,
        }
    } else {
        None
    }
}

/// The canonical path of a library file.
pub open spec fn builtin_canon_path(style: Seq<char>, file: Seq<char>) -> Seq<char> {
    "builtin:/"@ + style + "/"@ + file
}

/// The name of the file that marks a directory of the library as a style.
pub open spec fn std_widgets_name() -> Seq<char> {
    "std-widgets.slint"@
}

/// Whether the directory holds `std-widgets.slint`.
pub open spec fn has_std_widgets(d: BuiltinDirectory) -> bool {
    exists|j: int| 0 <= j < d.files@.len() && (#[trigger] d.files@[j]).path@ == std_widgets_name()
}

/// The names of the library's directories that hold `std-widgets.slint`, in
/// library order.
pub open spec fn styles_with_widgets(lib: Seq<BuiltinDirectory>) -> Seq<Seq<char>>
    decreases lib.len(),
{
    if lib.len() == 0 {
        seq![]
    } else {
        let rest = styles_with_widgets(lib.drop_last());
        if has_std_widgets(lib.last()) {
            rest.push(lib.last().style@)
        } else {
            rest
        }
    }
}

/// The style names: those of the library's styles, then every alias.
pub open spec fn spec_styles(lib: Seq<BuiltinDirectory>) -> Seq<Seq<char>> {
    styles_with_widgets(lib) + alias_table().map_values(|a: (Seq<char>, Seq<char>)| a.0)
}

/// A directory with a file `std-widgets.slint`, at any position among its
/// files, has its style among those listed before the aliases.
proof fn lemma_widget_directory_listed<'a>(lib: Seq<BuiltinDirectory<'a>>, d: int, j: int)
    requires
        0 <= d < lib.len(),
        0 <= j < lib[d].files@.len(),
        lib[d].files@[j].path@ == "std-widgets.slint"@,
    ensures
        styles_with_widgets(lib).contains(lib[d].style@),
    decreases lib.len(),
{
    let rest = styles_with_widgets(lib.drop_last());
    if d == lib.len() - 1 {
        assert(lib.last().files@[j].path@ == std_widgets_name());
        assert(has_std_widgets(lib.last()));
        assert(styles_with_widgets(lib) == rest.push(lib[d].style@));
        assert(styles_with_widgets(lib)[rest.len() as int] == lib[d].style@);
    } else {
        assert(lib.drop_last()[d] == lib[d]);
        lemma_widget_directory_listed(lib.drop_last(), d, j);
        let k = choose|k: int| 0 <= k < rest.len() && rest[k] == lib[d].style@;
        if has_std_widgets(lib.last()) {
            assert(styles_with_widgets(lib)[k] == lib[d].style@);
        } else {
            assert(styles_with_widgets(lib)[k] == lib[d].style@);
        }
    }
}

/// Each style listed before the aliases is the style of a directory with a
/// file `std-widgets.slint`.
proof fn lemma_listed_directory_has_widgets<'a>(lib: Seq<BuiltinDirectory<'a>>, k: int)
    requires
        0 <= k < styles_with_widgets(lib).len(),
    ensures
        exists|d: int, j: int| 0 <= d < lib.len() && 0 <= j < lib[d].files@.len() && lib[d].style@
            == styles_with_widgets(lib)[k] && (#[trigger] lib[d].files@[j]).path@ == "std-widgets.slint"@,
    decreases lib.len(),
{
    let rest = styles_with_widgets(lib.drop_last());
    let name = styles_with_widgets(lib)[k];
    if k < rest.len() {
        assert(name == rest[k]);
        lemma_listed_directory_has_widgets(lib.drop_last(), k);
        let (d, j) = choose|d: int, j: int| 0 <= d < lib.drop_last().len() && 0 <= j < lib.drop_last()[d].files@.len()
            && lib.drop_last()[d].style@ == rest[k] && (#[trigger] lib.drop_last()[d].files@[j]).path@ == "std-widgets.slint"@;
        assert(lib[d] == lib.drop_last()[d]);
        assert(lib[d].files@[j].path@ == "std-widgets.slint"@);
    } else {
        assert(has_std_widgets(lib.last()));
        let d = lib.len() - 1;
        let j = choose|j: int| 0 <= j < lib.last().files@.len() && (#[trigger] lib.last().files@[j]).path@ == std_widgets_name();
        assert(lib[d].files@[j].path@ == "std-widgets.slint"@);
        assert(name == lib[d].style@);
    }
}

/// The styles are exactly the styles of the library's directories that hold
/// a file `std-widgets.slint` (at any position among their files), in
/// library order, followed by every alias name.
pub proof fn law_styles_are_widget_directories_and_aliases<'a>(lib: Seq<BuiltinDirectory<'a>>)
    ensures
        forall|d: int, j: int|
            0 <= d < lib.len() && 0 <= j < lib[d].files@.len() && (#[trigger] lib[d].files@[j]).path@
                == "std-widgets.slint"@ ==> spec_styles(lib).contains(lib[d].style@),
        forall|k: int|
            0 <= k < spec_styles(lib).len() ==> (exists|a: int| 0 <= a < alias_table().len() && alias_table()[a].0
                == #[trigger] spec_styles(lib)[k]) || (exists|d: int, j: int| 0 <= d < lib.len() && 0 <= j < lib[d].files@.len()
                && lib[d].style@ == spec_styles(lib)[k] && (#[trigger] lib[d].files@[j]).path@ == "std-widgets.slint"@),
{
    let w = styles_with_widgets(lib);
    let names = alias_table().map_values(|a: (Seq<char>, Seq<char>)| a.0);
    assert(spec_styles(lib) == w + names);
    assert forall|d: int, j: int|
        0 <= d < lib.len() && 0 <= j < lib[d].files@.len() && (#[trigger] lib[d].files@[j]).path@ == "std-widgets.slint"@
        implies spec_styles(lib).contains(lib[d].style@) by {
        lemma_widget_directory_listed(lib, d, j);
        let k = choose|k: int| 0 <= k < w.len() && w[k] == lib[d].style@;
        assert(spec_styles(lib)[k] == lib[d].style@);
    }
    assert forall|k: int| 0 <= k < spec_styles(lib).len() implies (exists|a: int| 0 <= a < alias_table().len()
        && alias_table()[a].0 == #[trigger] spec_styles(lib)[k]) || (exists|d: int, j: int| 0 <= d < lib.len() && 0 <= j
        < lib[d].files@.len() && lib[d].style@ == spec_styles(lib)[k] && (#[trigger] lib[d].files@[j]).path@
        == "std-widgets.slint"@) by {
        if k < w.len() {
            assert(spec_styles(lib)[k] == w[k]);
            lemma_listed_directory_has_widgets(lib, k);
        } else {
            let a = k - w.len();
            assert(spec_styles(lib)[k] == names[a]);
            assert(alias_table()[a].0 == spec_styles(lib)[k]);
        }
    }
}

/// Every alias names the style it stands for followed by `-light` or
/// `-dark`.
pub proof fn law_alias_is_style_with_variant(i: int)
    requires
        0 <= i < alias_table().len(),
    ensures
        alias_table()[i].0 == alias_table()[i].1 + "-light"@ || alias_table()[i].0 == alias_table()[i].1 + "-dark"@,
{
    reveal_strlit("cosmic-light");
    reveal_strlit("cosmic-dark");
    reveal_strlit("fluent-light");
    reveal_strlit("fluent-dark");
    reveal_strlit("fluent2-light");
    reveal_strlit("fluent2-dark");
    reveal_strlit("material-light");
    reveal_strlit("material-dark");
    reveal_strlit("cupertino-light");
    reveal_strlit("cupertino-dark");
    reveal_strlit("retrotone-light");
    reveal_strlit("retrotone-dark");
    reveal_strlit("cosmic");
    reveal_strlit("fluent");
    reveal_strlit("fluent2");
    reveal_strlit("material");
    reveal_strlit("cupertino");
    reveal_strlit("retrotone");
    reveal_strlit("-light");
    reveal_strlit("-dark");
    let t = alias_table();
    if i % 2 == 0 {
        assert(t[i].0 =~= t[i].1 + "-light"@);
    } else {
        assert(t[i].0 =~= t[i].1 + "-dark"@);
    }
}

/// Whether the directory holds `std-widgets.slint`.
fn directory_has_std_widgets(d: &BuiltinDirectory) -> (r: bool)
    ensures
        r == has_std_widgets(*d),
{
    let mut j: usize = 0;
    while j < d.files.len()
        invariant
            j <= d.files@.len(),
            forall|k: int| 0 <= k < j ==> (#[trigger] d.files@[k]).path@ != std_widgets_name(),
        decreases d.files@.len() - j,
    {
        if str_eq(d.files[j].path, "std-widgets.slint") {
            assert(d.files@[j as int].path@ == std_widgets_name());
            return true;
        }
        j = j + 1;
    }
    false
}

/// The names of all styles: every directory of `library` that holds
/// `std-widgets.slint`, followed by every alias name.
pub fn styles<'a>(library: &[BuiltinDirectory<'a>]) -> (r: Vec<&'a str>)
    ensures
        r@.map_values(|s: &str| s@) == spec_styles(library@),
{
    let mut r: Vec<&'a str> = Vec::new();
    let mut i: usize = 0;
    while i < library.len()
        invariant
            i <= library@.len(),
            r@.map_values(|s: &str| s@) == styles_with_widgets(library@.take(i as int)),
        decreases library@.len() - i,
    {
        assert(library@.take(i + 1).drop_last() =~= library@.take(i as int));
        if directory_has_std_widgets(&library[i]) {
            r.push(library[i].style);
        }
        assert(r@.map_values(|s: &str| s@) =~= styles_with_widgets(library@.take(i + 1)));
        i = i + 1;
    }
    assert(library@.take(library@.len() as int) =~= library@);
    let ghost base = r@;
    let table = aliases();
    let mut k: usize = 0;
    while k < table.len()
        invariant
            k <= table@.len(),
            table@.len() == alias_table().len(),
            forall|i: int|
                0 <= i < table@.len() ==> (#[trigger] table@[i]).0@ == alias_table()[i].0,
            base.map_values(|s: &str| s@) == styles_with_widgets(library@),
            r@ == base + r@.skip(base.len() as int),
            r@.len() == base.len() + k,
            forall|i: int| 0 <= i < k ==> (#[trigger] r@[base.len() + i])@ == alias_table()[i].0,
        decreases table@.len() - k,
    {
        r.push(table[k].0);
        assert(r@.skip(base.len() as int).len() == k + 1);
        k = k + 1;
    }
    let ghost names = r@.map_values(|s: &str| s@);
    let ghost expect = spec_styles(library@);
    assert forall|i: int| 0 <= i < names.len() implies names[i] == expect[i] by {
        if i < base.len() {
            assert(r@[i] == base[i]);
            assert(base.map_values(|s: &str| s@)[i] == base[i]@);
        } else {
            assert((r@[base.len() + (i - base.len())])@ == alias_table()[i - base.len()].0);
        }
    }
    assert(names =~= expect);
    r
}

/// Every alias stands for the style in its table entry, and no style that
/// an alias stands for is itself an alias.
pub proof fn lemma_alias_table(i: int)
    requires
        0 <= i < alias_table().len(),
    ensures
        alias_target(alias_table()[i].0) == Some(alias_table()[i].1),
        alias_target(alias_table()[i].1) is None,
{
    reveal_strlit("cosmic-light");
    reveal_strlit("cosmic-dark");
    reveal_strlit("fluent-light");
    reveal_strlit("fluent-dark");
    reveal_strlit("fluent2-light");
    reveal_strlit("fluent2-dark");
    reveal_strlit("material-light");
    reveal_strlit("material-dark");
    reveal_strlit("cupertino-light");
    reveal_strlit("cupertino-dark");
    reveal_strlit("retrotone-light");
    reveal_strlit("retrotone-dark");
    reveal_strlit("cosmic");
    reveal_strlit("fluent");
    reveal_strlit("fluent2");
    reveal_strlit("material");
    reveal_strlit("cupertino");
    reveal_strlit("retrotone");
    let t = alias_table();
    let name = t[i].0;
    assert forall|j: int| 0 <= j < i implies !(#[trigger] alias_named(name)(t[j])) by {
        assert(t[j].0.len() != name.len() || t[j].0[t[j].0.len() - 2] != name[name.len() - 2] || t[j].0[0] != name[0] || t[j].0[6] != name[6]);
    }
    assert(is_first(t, alias_named(name), i));
    lemma_first_index_found(t, alias_named(name), i);
    let target = t[i].1;
    assert forall|j: int| 0 <= j < t.len() implies !(#[trigger] alias_named(target)(t[j])) by {
        assert(t[j].0.len() != target.len() || t[j].0[t[j].0.len() - 1] != target[target.len() - 1]);
    }
    lemma_first_index_none(t, alias_named(target));
}

/// A path through an alias leads where the same path through the style it
/// stands for leads.
pub proof fn law_alias_loads_target_style<'a>(lib: Seq<BuiltinDirectory<'a>>, via_alias: Seq<char>, via_style: Seq<char>, i: int)
    requires
        0 <= i < alias_table().len(),
        resolved_components(via_alias).len() == 2,
        resolved_components(via_style).len() == 2,
        resolved_components(via_alias)[0] == alias_table()[i].0,
        resolved_components(via_style)[0] == alias_table()[i].1,
        resolved_components(via_alias)[1] == resolved_components(via_style)[1],
    ensures
        builtin_location(lib, via_alias) == builtin_location(lib, via_style),
{
    lemma_alias_table(i);
    assert(with_alias(resolved_components(via_alias)) =~= with_alias(resolved_components(via_style)));
}

/// The styles that aliases stand for are plain names.
proof fn lemma_alias_targets_plain(i: int)
    requires
        0 <= i < alias_table().len(),
    ensures
        !alias_table()[i].1.contains('/'),
        alias_table()[i].1.len() > 2,
{
    reveal_strlit("cosmic");
    reveal_strlit("fluent");
    reveal_strlit("fluent2");
    reveal_strlit("material");
    reveal_strlit("cupertino");
    reveal_strlit("retrotone");
    let t = alias_table()[i].1;
    assert(!t.contains('/')) by {
        if t.contains('/') {
            let k = choose|k: int| 0 <= k < t.len() && t[k] == '/';
            assert(t[k] != '/');
        }
    }
}

/// The canonical path of a file found in the widget library is a builtin
/// path that leads back to the same file.
pub proof fn law_canonical_path_is_canonical<'a>(lib: Seq<BuiltinDirectory<'a>>, path: Seq<char>)
    requires
        builtin_location(lib, path) is Some,
        forall|k: int| 0 <= k < lib.len() ==> (#[trigger] lib[k]).style@ != crate::paths::root_dir(),
    ensures
        ({
            let (d, f) = builtin_location(lib, path)->0;
            let rest = lib[d].style@ + "/"@ + lib[d].files@[f].path@;
            &&& builtin_remainder(builtin_canon_path(lib[d].style@, lib[d].files@[f].path@)) == Some(rest)
            &&& builtin_location(lib, rest) == Some((d, f))
        }),
{
    reveal_strlit("/");
    reveal_strlit("builtin:/");
    reveal_strlit("builtin:");
    let (d, f) = builtin_location(lib, path)->0;
    let resolved = resolved_components(path);
    let comps = with_alias(resolved);
    crate::paths::lemma_path_components_plain(path);
    assert(comps.len() == 2);
    let c0 = comps[0];
    let c1 = comps[1];
    assert(c1 == resolved[1]);
    assert(crate::paths::is_plain_name(resolved[1]));
    if alias_target(resolved[0]) is Some {
        let k = first_index(alias_table(), alias_named(resolved[0]))->0;
        crate::lookup::lemma_first_is_first(alias_table(), alias_named(resolved[0]));
        lemma_alias_targets_plain(k);
        lemma_alias_table(k);
        assert(c0 == alias_table()[k].1);
        assert(c0 != crate::paths::cur_dir() && c0 != crate::paths::parent_dir());
    } else {
        assert(c0 == resolved[0]);
    }
    let pd = style_named::<'a>(c0);
    crate::lookup::lemma_first_is_first(lib, pd);
    assert(lib[d].style@ == c0);
    assert(crate::paths::is_plain_name(c0));
    let pf = file_named::<'a>(c1);
    crate::lookup::lemma_first_is_first(lib[d].files@, pf);
    assert(lib[d].files@[f].path@ == c1);
    let rest = c0 + "/"@ + c1;
    crate::paths::lemma_two_components(c0, c1);
    assert(with_alias(seq![c0, c1]) =~= seq![c0, c1]);
    let canon = builtin_canon_path(c0, c1);
    assert(canon =~= "builtin:"@ + ("/"@ + rest));
    assert(canon.take(8) =~= "builtin:"@);
    assert(canon.skip(9) =~= rest);
    assert(canon.len() > 8 && canon[8] == '/');
    assert(rest[0] == c0[0]);
    assert(c0[0] != '/') by {
        if c0[0] == '/' {
            assert(c0.contains('/'));
        }
    }
    assert(canon.skip(8).drop_first() =~= rest);
    assert(skip_separators(canon.skip(8)) == skip_separators(rest));
    assert(skip_separators(rest) == rest);
    assert(builtin_remainder(canon) == Some(rest));
    assert(rest =~= c0 + seq!['/'] + c1);
    assert(resolved_components(rest) == seq![c0, c1]);
    assert(with_alias(resolved_components(rest)) == seq![c0, c1]);
    assert(first_index(lib, style_named::<'a>(c0)) == Some(d));
    assert(first_index(lib[d].files@, file_named::<'a>(c1)) == Some(f));
    assert(builtin_location(lib, rest) == Some((d, f)));
}

/// A `builtin:/` path is looked up in the widget library by what follows
/// the prefix and the separators after it.
pub proof fn law_builtin_prefix_is_stripped(rest: Seq<char>)
    ensures
        builtin_remainder("builtin:/"@ + rest) == Some(skip_separators(rest)),
        rest.len() == 0 || rest[0] != '/' ==> builtin_remainder("builtin:/"@ + rest) == Some(rest),
{
    reveal_strlit("builtin:/");
    reveal_strlit("builtin:");
    let p = "builtin:/"@ + rest;
    assert(p.take(8) =~= "builtin:"@);
    assert(p[8] == '/');
    assert(p.skip(8).drop_first() =~= rest);
    assert(skip_separators(p.skip(8)) == skip_separators(rest));
}

/// The position of the first alias entry named `name`.
fn find_alias(table: &Vec<(&'static str, &'static str)>, name: &[char]) -> (r: Option<usize>)
    requires
        table@.len() == alias_table().len(),
        forall|i: int|
            0 <= i < table@.len() ==> (#[trigger] table@[i]).0@ == alias_table()[i].0 && table@[i].1@
                == alias_table()[i].1,
    ensures
        match r {
            Some(i) => first_index(alias_table(), alias_named(name@)) == Some(i as int),
            None => first_index(alias_table(), alias_named(name@)) is None,
        },
{
    let mut i: usize = 0;
    while i < table.len()
        invariant
            i <= table@.len(),
            table@.len() == alias_table().len(),
            forall|i: int|
                0 <= i < table@.len() ==> (#[trigger] table@[i]).0@ == alias_table()[i].0,
            forall|j: int| 0 <= j < i ==> !(#[trigger] alias_named(name@)(alias_table()[j])),
        decreases table@.len() - i,
    {
        if str_is(table[i].0, name) {
            proof {
                assert(is_first(alias_table(), alias_named(name@), i as int));
                lemma_first_index_found(alias_table(), alias_named(name@), i as int);
            }
            return Some(i);
        }
        i = i + 1;
    }
    proof {
        lemma_first_index_none(alias_table(), alias_named(name@));
    }
    None
}

/// The position of the first directory of the style `name`.
fn find_directory<'a>(library: &[BuiltinDirectory<'a>], name: &[char]) -> (r: Option<usize>)
    ensures
        match r {
            Some(i) => first_index(library@, style_named(name@)) == Some(i as int),
            None => first_index(library@, style_named(name@)) is None,
        },
{
    let mut i: usize = 0;
    while i < library.len()
        invariant
            i <= library@.len(),
            forall|j: int| 0 <= j < i ==> !(#[trigger] style_named(name@)(library@[j])),
        decreases library@.len() - i,
    {
        if str_is(library[i].style, name) {
            proof {
                assert(is_first(library@, style_named(name@), i as int));
                lemma_first_index_found(library@, style_named(name@), i as int);
            }
            return Some(i);
        }
        i = i + 1;
    }
    proof {
        lemma_first_index_none(library@, style_named(name@));
    }
    None
}

/// The position of the first file at `name` in a directory.
fn find_file<'a>(files: &Vec<BuiltinFile<'a>>, name: &[char]) -> (r: Option<usize>)
    ensures
        match r {
            Some(i) => first_index(files@, file_named(name@)) == Some(i as int),
            None => first_index(files@, file_named(name@)) is None,
        },
{
    let mut i: usize = 0;
    while i < files.len()
        invariant
            i <= files@.len(),
            forall|j: int| 0 <= j < i ==> !(#[trigger] file_named(name@)(files@[j])),
        decreases files@.len() - i,
    {
        if str_is(files[i].path, name) {
            proof {
                assert(is_first(files@, file_named(name@), i as int));
                lemma_first_index_found(files@, file_named(name@), i as int);
            }
            return Some(i);
        }
        i = i + 1;
    }
    proof {
        lemma_first_index_none(files@, file_named(name@));
    }
    None
}

/// Looks a path up in the builtin widget library. The path is read
/// component by component (a leading `/` is the root component, empty and
/// `.` components are skipped, `..` removes the one before); a leading alias is replaced by the style it stands for;
/// the result must be a style name followed by a file name, and the file is
/// then taken from the first directory of that style.
pub fn load_builtin_file<'a>(library: &[BuiltinDirectory<'a>], builtin_path: &str) -> (r: Option<VirtualFile>)
    ensures
        match builtin_location(library@, builtin_path@) {
            Some((d, f)) => r matches Some(file) && file.canon_path@ == builtin_canon_path(
                library@[d].style@,
                library@[d].files@[f].path@,
            ) && file.builtin_contents == Some(library@[d].files@[f].contents),
            None => r is None,
        },
{
    let chars = chars_of(builtin_path);
    load_builtin_chars(library, chars.as_slice())
}

/// `load_builtin_file` on the characters of the path.
fn load_builtin_chars<'a>(library: &[BuiltinDirectory<'a>], builtin_path: &[char]) -> (r: Option<VirtualFile>)
    ensures
        match builtin_location(library@, builtin_path@) {
            Some((d, f)) => r matches Some(file) && file.canon_path@ == builtin_canon_path(
                library@[d].style@,
                library@[d].files@[f].path@,
            ) && file.builtin_contents == Some(library@[d].files@[f].contents),
            None => r is None,
        },
{
    let mut comps = resolve_path(builtin_path);
    let ghost resolved = char_vecs(comps@);
    if comps.len() > 0 {
        let table = aliases();
        match find_alias(&table, comps[0].as_slice()) {
            Some(i) => {
                let target = chars_of(table[i].1);
                comps.set(0, target);
                assert(char_vecs(comps@) =~= with_alias(resolved));
            },
            None => {
                assert(char_vecs(comps@) =~= with_alias(resolved));
            },
        }
    } else {
        assert(char_vecs(comps@) =~= with_alias(resolved));
    }
    let ghost comps_view = char_vecs(comps@);
    assert(comps_view == with_alias(resolved_components(builtin_path@)));
    if comps.len() != 2 {
        return None;
    }
    assert(comps_view[0] == comps@[0]@ && comps_view[1] == comps@[1]@);
    let d = match find_directory(library, comps[0].as_slice()) {
        Some(d) => d,
        None => return None,
    };
    let dir = &library[d];
    let f = match find_file(&dir.files, comps[1].as_slice()) {
        Some(f) => f,
        None => return None,
    };
    let file = &dir.files[f];
    let mut canon_path = String::new();
    canon_path.append("builtin:/");
    canon_path.append(dir.style);
    canon_path.append("/");
    canon_path.append(file.path);
    Some(VirtualFile { canon_path, builtin_contents: Some(file.contents) })
}

/// Where the compiler finds a file.
pub enum FileLookup {
    /// The path names the builtin widget library; the file, if it is there.
    Builtin(Option<VirtualFile>),
    /// The path names a file on disk.
    Disk,
}

/// Decides where `path` is read from: a path whose first component is
/// `builtin:` is looked up in the widget library, any other on disk.
pub fn lookup_file<'a>(library: &[BuiltinDirectory<'a>], path: &str) -> (r: FileLookup)
    ensures
        match builtin_remainder(path@) {
            Some(rest) => r matches FileLookup::Builtin(found) && match builtin_location(library@, rest) {
                Some((d, f)) => found matches Some(file) && file.canon_path@ == builtin_canon_path(
                    library@[d].style@,
                    library@[d].files@[f].path@,
                ) && file.builtin_contents == Some(library@[d].files@[f].contents),
                None => found is None,
            },
            None => r matches FileLookup::Disk,
        },
{
    let p = chars_of(path);
    let prefix = chars_of("builtin:");
    if p.len() < 8 {
        return FileLookup::Disk;
    }
    proof {
        reveal_strlit("builtin:");
    }
    let mut i: usize = 0;
    while i < 8
        invariant
            p@.len() >= 8,
            p@ == path@,
            prefix@ == "builtin:"@,
            prefix@.len() == 8,
            i <= 8,
            forall|j: int| 0 <= j < i ==> p@[j] == prefix@[j],
        decreases 8 - i,
    {
        proof {
            reveal_strlit("builtin:");
        }
        if p[i] != prefix[i] {
            assert(p@.take(8)[i as int] != "builtin:"@[i as int]);
            return FileLookup::Disk;
        }
        i = i + 1;
    }
    proof {
        reveal_strlit("builtin:");
        assert(p@.take(8) =~= "builtin:"@);
    }
    if p.len() > 8 && p[8] != '/' {
        return FileLookup::Disk;
    }
    let mut start: usize = 8;
    while start < p.len() && p[start] == '/'
        invariant
            8 <= start <= p@.len(),
            skip_separators(p@.skip(8)) == skip_separators(p@.skip(start as int)),
        decreases p@.len() - start,
    {
        assert(p@.skip(start as int).drop_first() =~= p@.skip(start + 1));
        start = start + 1;
    }
    assert(skip_separators(p@.skip(start as int)) == p@.skip(start as int));
    let mut rest: Vec<char> = Vec::new();
    let mut k: usize = start;
    while k < p.len()
        invariant
            start <= k <= p@.len(),
            rest@ == p@.subrange(start as int, k as int),
        decreases p@.len() - k,
    {
        rest.push(p[k]);
        assert(p@.subrange(start as int, k + 1) =~= p@.subrange(start as int, k as int).push(p@[k as int]));
        k = k + 1;
    }
    assert(rest@ =~= p@.skip(start as int));
    FileLookup::Builtin(load_builtin_chars(library, rest.as_slice()))
}

} // verus!
