//! Font registration bookkeeping: fonts are registered once per canonical
//! file path (or once per embedded byte range), file mappings are shared per
//! canonical path, and design-space metrics are read from the font tables.

use vstd::prelude::*;
use crate::paths::{parent_dir, PathComponent};
use crate::text::{chars_of, str_eq};
use crate::lookup::lemma_push_to_set;

verus! {

/// The canonical paths of the font files registered so far.
pub struct RegisteredFontPaths {
    paths: Vec<String>,
}

impl View for RegisteredFontPaths {
    type V = Set<Seq<char>>;

    closed spec fn view(&self) -> Set<Seq<char>> {
        self.paths@.map_values(|p: String| p@).to_set()
    }
}

impl RegisteredFontPaths {
    /// No path registered.
    pub fn new() -> (r: Self)
        ensures
            r@ == Set::<Seq<char>>::empty(),
    {
        let r = RegisteredFontPaths { paths: Vec::new() };
        assert(r@ =~= Set::<Seq<char>>::empty());
        r
    }

    /// Whether `path` is registered.
    pub fn contains(&self, path: &str) -> (r: bool)
        ensures
            r == self@.contains(path@),
    {
        let ghost views = self.paths@.map_values(|p: String| p@);
        let mut i: usize = 0;
        while i < self.paths.len()
            invariant
                i <= self.paths@.len(),
                views == self.paths@.map_values(|p: String| p@),
                forall|j: int| 0 <= j < i ==> views[j] != path@,
            decreases self.paths@.len() - i,
        {
            if str_eq(self.paths[i].as_str(), path) {
                assert(views[i as int] == path@);
                assert(views.contains(path@));
                return true;
            }
            i = i + 1;
        }
        assert(!views.contains(path@));
        false
    }

    /// Adds `path`; returns whether it was not registered before.
    pub fn insert(&mut self, path: String) -> (added: bool)
        ensures
            added == !old(self)@.contains(path@),
            final(self)@ == old(self)@.insert(path@),
    {
        if self.contains(path.as_str()) {
            assert(self@.insert(path@) =~= self@);
            false
        } else {
            let ghost pv = path@;
            let ghost before = self.paths@.map_values(|p: String| p@);
            self.paths.push(path);
            assert(self.paths@.map_values(|p: String| p@) =~= before.push(pv));
            proof { lemma_push_to_set(before, pv); }
            true
        }
    }
}

/// The path under which a font file is registered: its canonical form when
/// the file system could resolve it, the path as given otherwise.
pub fn canonical_font_path(path: &str, canonicalized: Option<String>) -> (r: String)
    ensures
        r@ == match canonicalized {
            Some(c) => c@,
            None => path@,
        },
{
    match canonicalized {
        Some(c) => c,
        None => path.to_owned(),
    }
}

/// Records the font file at `canonical_path`; returns whether it was not
/// registered before, that is, whether its bytes must now be mapped and
/// handed to the font collection. A path is recorded even when loading its
/// bytes then fails, so it is tried only once.
pub fn register_font_from_path(registered: &mut RegisteredFontPaths, canonical_path: String) -> (load: bool)
    ensures
        load == !old(registered)@.contains(canonical_path@),
        final(registered)@ == old(registered)@.insert(canonical_path@),
{
    registered.insert(canonical_path)
}

/// The embedded font byte ranges registered so far, by start address and
/// length.
pub struct RegisteredFontMemory {
    ranges: Vec<(usize, usize)>,
}

impl View for RegisteredFontMemory {
    type V = Set<(usize, usize)>;

    closed spec fn view(&self) -> Set<(usize, usize)> {
        self.ranges@.to_set()
    }
}

impl RegisteredFontMemory {
    /// No range registered.
    pub fn new() -> (r: Self)
        ensures
            r@ == Set::<(usize, usize)>::empty(),
    {
        let r = RegisteredFontMemory { ranges: Vec::new() };
        assert(r@ =~= Set::<(usize, usize)>::empty());
        r
    }
}

/// Records the embedded font at the byte range starting at `address` with
/// `len` bytes; returns whether it was not registered before, that is,
/// whether it must now be handed to the font collection.
pub fn register_font_from_memory(registered: &mut RegisteredFontMemory, address: usize, len: usize) -> (load: bool)
    ensures
        load == !old(registered)@.contains((address, len)),
        final(registered)@ == old(registered)@.insert((address, len)),
{
    let mut i: usize = 0;
    while i < registered.ranges.len()
        invariant
            i <= registered.ranges@.len(),
            forall|j: int| 0 <= j < i ==> registered.ranges@[j] != (address, len),
        decreases registered.ranges@.len() - i,
    {
        let (a, l) = registered.ranges[i];
        if a == address && l == len {
            assert(registered.ranges@[i as int] == (address, len));
            assert(registered@.contains((address, len)));
            assert(registered@.insert((address, len)) =~= registered@);
            return false;
        }
        i = i + 1;
    }
    assert(!registered.ranges@.contains((address, len)));
    let ghost before = registered.ranges@;
    registered.ranges.push((address, len));
    proof {
        lemma_push_to_set(before, (address, len));
    }
    true
}

/// Registering a font path a second time asks for no loading and leaves the
/// registered paths as they were: each canonical path is loaded at most once.
pub proof fn law_font_path_registered_once(registered: Set<Seq<char>>, path: Seq<char>)
    ensures
        registered.insert(path).contains(path),
        registered.insert(path).insert(path) == registered.insert(path),
{
    assert(registered.insert(path).insert(path) =~= registered.insert(path));
}

/// Registering an embedded font range a second time asks for no loading and
/// leaves the registered ranges as they were.
pub proof fn law_font_memory_registered_once(registered: Set<(usize, usize)>, address: usize, len: usize)
    ensures
        registered.insert((address, len)).contains((address, len)),
        registered.insert((address, len)).insert((address, len)) == registered.insert((address, len)),
{
    assert(registered.insert((address, len)).insert((address, len)) =~= registered.insert((address, len)));
}

/// Whether the file name `name` has an extension, as
/// `std::path::Path::extension` decides it: the name is not `..` and has a
/// `.` after its first character.
pub open spec fn name_has_extension(name: Seq<char>) -> bool {
    name != parent_dir() && exists|i: int| 0 < i < name.len() && name[i] == '.'
}

/// The file name of a path with the given components, as
/// `std::path::Path::file_name` gives it: the last component when it is a
/// name.
pub open spec fn file_name_of(components: Seq<PathComponent>) -> Option<Seq<char>> {
    if components.len() > 0 {
        match components.last() {
            PathComponent::Normal(name) => Some(name@),
            _ => None,
        }
    } else {
        None
    }
}

/// Whether a path with the given components ends in a file name with an
/// extension, as `std::path::Path::extension` decides it.
pub open spec fn path_has_extension(components: Seq<PathComponent>) -> bool {
    match file_name_of(components) {
        Some(name) => name_has_extension(name),
        None => false,
    }
}

/// Whether a path with the given components (as `std::path::Path::components`
/// yields them on the running platform) ends in a file name with an
/// extension. A default-font setting with an extension names one font file;
/// one without names a directory of font files.
pub fn has_extension(components: &[PathComponent]) -> (r: bool)
    ensures
        r == path_has_extension(components@),
{
    if components.len() == 0 {
        return false;
    }
    let name = match &components[components.len() - 1] {
        PathComponent::Normal(n) => chars_of(n.as_str()),
        _ => return false,
    };
    assert(file_name_of(components@) == Some(name@));
    let dotdot: [char; 2] = ['.', '.'];
    proof {
        assert(dotdot@ =~= parent_dir());
    }
    if crate::text::chars_eq(name.as_slice(), dotdot.as_slice()) {
        return false;
    }
    let mut k: usize = 1;
    while k < name.len()
        invariant
            1 <= k,
            file_name_of(components@) == Some(name@),
            name@ != parent_dir(),
            forall|j: int| 0 < j < k && j < name@.len() ==> name@[j] != '.',
        decreases name@.len() - k,
    {
        if name[k] == '.' {
            assert(name@[k as int] == '.');
            return true;
        }
        k = k + 1;
    }
    false
}

/// What `ttf_parser::Face::parse` reports of the face at `index` in the font
/// data `data`: ascender, descender, x height, capital height and units per
/// em, or nothing when the data does not parse as such a face.
pub uninterp spec fn ttf_face_metrics(data: Seq<u8>, index: u32) -> Option<(i16, i16, Option<i16>, Option<i16>, u16)>;

/// Parses the face at `index` of `data` with `ttf_parser::Face::parse` and
/// reads its ascender, descender, x height, capital height and units per em.
/// Trusted: the result is the named `ttf_face_metrics` of the arguments, and
/// units per em lies in 16..=16384, which the parser checks; how the tables
/// are read is not stated.
#[verifier::external_body]
fn parse_face_metrics(data: &[u8], index: u32) -> (r: Option<(i16, i16, Option<i16>, Option<i16>, u16)>)
    ensures
        r == ttf_face_metrics(data@, index),
        r matches Some(m) ==> 16 <= m.4 <= 16384,
{
    match ttf_parser::Face::parse(data, index) {
        Ok(face) => Some((face.ascender(), face.descender(), face.x_height(), face.capital_height(), face.units_per_em())),
        Err(_) => None,
    }
}

/// Font metrics in design units. Scale them with the desired pixel size and
/// divide by `units_per_em` to obtain pixel metrics.
#[derive(Copy, Clone, Debug, PartialEq, Eq, Structural)]
pub struct DesignMetricUnits {
    pub ascent: i16,
    pub descent: i16,
    pub x_height: i16,
    pub cap_height: i16,
    pub units_per_em: u16,
}

/// The metrics of a face from what its tables report; an x height or capital
/// height that the face does not give counts as 0.
pub fn metric_units_from_face(m: (i16, i16, Option<i16>, Option<i16>, u16)) -> (r: DesignMetricUnits)
    ensures
        r == (DesignMetricUnits {
            ascent: m.0,
            descent: m.1,
            x_height: match m.2 { Some(v) => v, None => 0 },
            cap_height: match m.3 { Some(v) => v, None => 0 },
            units_per_em: m.4,
        }),
{
    DesignMetricUnits {
        ascent: m.0,
        descent: m.1,
        x_height: match m.2 { Some(v) => v, None => 0 },
        cap_height: match m.3 { Some(v) => v, None => 0 },
        units_per_em: m.4,
    }
}

/// The design metrics of the face at `index` in the font data `data`, or
/// nothing when the data does not parse as such a face.
pub fn design_metric_units(data: &[u8], index: u32) -> (r: Option<DesignMetricUnits>)
    ensures
        match ttf_face_metrics(data@, index) {
            Some(m) => r == Some(
                DesignMetricUnits {
                    ascent: m.0,
                    descent: m.1,
                    x_height: match m.2 { Some(v) => v, None => 0 },
                    cap_height: match m.3 { Some(v) => v, None => 0 },
                    units_per_em: m.4,
                },
            ) && 16 <= m.4 <= 16384,
            None => r is None,
        },
{
    match parse_face_metrics(data, index) {
        Some(m) => Some(metric_units_from_face(m)),
        None => None,
    }
}

} // verus!
