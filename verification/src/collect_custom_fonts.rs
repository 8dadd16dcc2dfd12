//! The font registration that the compiler adds to the init code of every
//! exported component: every custom font of every document, once each and in
//! sorted order, registered either by embedded resource id or by path, with
//! run-time path prefixes remapped.

use vstd::prelude::*;
use crate::lookup::{first_index, is_first, lemma_first_index_found, lemma_first_index_none};
use crate::paths::split_pieces;
use crate::text::{chars_of, string_from_chars};
use crate::path_map::{PathMap, lookup_entry};

verus! {

/// Matches the character `c`.
pub open spec fn char_is(c: char) -> spec_fn(char) -> bool {
    |x: char| x == c
}

/// One `source=target` entry of the prefix map: the text before the first
/// `=` and the text after it; a piece without `=` is no entry.
pub open spec fn prefix_map_entry(piece: Seq<char>) -> Option<(Seq<char>, Seq<char>)> {
    match first_index(piece, char_is('=')) {
        Some(i) => Some((piece.take(i), piece.skip(i + 1))),
        None => None,
    }
}

/// The entries of the `;`-separated pieces, empty pieces and pieces without
/// `=` skipped.
pub open spec fn prefix_map_entries(pieces: Seq<Seq<char>>) -> Seq<(Seq<char>, Seq<char>)>
    decreases pieces.len(),
{
    if pieces.len() == 0 {
        seq![]
    } else {
        let rest = prefix_map_entries(pieces.drop_last());
        let piece = pieces.last();
        if piece.len() == 0 {
            rest
        } else {
            match prefix_map_entry(piece) {
                Some(e) => rest.push(e),
                None => rest,
            }
        }
    }
}

/// The entries of a prefix map written as `source=target` pairs separated
/// by `;`, in order.
pub open spec fn spec_parse_prefix_map(m: Seq<char>) -> Seq<(Seq<char>, Seq<char>)> {
    prefix_map_entries(split_pieces(m, ';'))
}

/// The character sequences of a list of string pairs.
pub open spec fn pair_views(v: Seq<(String, String)>) -> Seq<(Seq<char>, Seq<char>)> {
    v.map_values(|e: (String, String)| (e.0@, e.1@))
}

/// The entry of one piece, if it is one.
fn parse_entry(piece: &[char]) -> (r: Option<(String, String)>)
    ensures
        match prefix_map_entry(piece@) {
            Some(e) => r matches Some(x) && x.0@ == e.0 && x.1@ == e.1,
            None => r is None,
        },
{
    let mut i: usize = 0;
    while i < piece.len()
        invariant
            i <= piece@.len(),
            forall|j: int| 0 <= j < i ==> !(#[trigger] char_is('=')(piece@[j])),
        decreases piece@.len() - i,
    {
        if piece[i] == '=' {
            proof {
                assert(is_first(piece@, char_is('='), i as int));
                lemma_first_index_found(piece@, char_is('='), i as int);
            }
            let mut source: Vec<char> = Vec::new();
            let mut k: usize = 0;
            while k < i
                invariant
                    k <= i,
                    i < piece@.len(),
                    source@ == piece@.take(k as int),
                decreases i - k,
            {
                source.push(piece[k]);
                assert(piece@.take(k + 1) =~= piece@.take(k as int).push(piece@[k as int]));
                k = k + 1;
            }
            let mut target: Vec<char> = Vec::new();
            let mut k: usize = i + 1;
            while k < piece.len()
                invariant
                    i + 1 <= k <= piece@.len(),
                    target@ == piece@.subrange(i + 1, k as int),
                decreases piece@.len() - k,
            {
                target.push(piece[k]);
                assert(piece@.subrange(i + 1, k + 1) =~= piece@.subrange(i + 1, k as int).push(piece@[k as int]));
                k = k + 1;
            }
            assert(target@ =~= piece@.skip(i + 1));
            return Some((string_from_chars(source.as_slice()), string_from_chars(target.as_slice())));
        }
        i = i + 1;
    }
    proof {
        lemma_first_index_none(piece@, char_is('='));
    }
    None
}

/// Adds the entry of one more piece.
fn push_entry(entries: &mut Vec<(String, String)>, piece: &[char])
    ensures
        pair_views(final(entries)@) == if piece@.len() == 0 {
            pair_views(old(entries)@)
        } else {
            match prefix_map_entry(piece@) {
                Some(e) => pair_views(old(entries)@).push(e),
                None => pair_views(old(entries)@),
            }
        },
{
    if piece.len() == 0 {
        return;
    }
    match parse_entry(piece) {
        Some(e) => {
            let ghost before = entries@;
            let ghost ev = (e.0@, e.1@);
            entries.push(e);
            assert(pair_views(entries@) =~= pair_views(before).push(ev));
        },
        None => {},
    }
}

/// Parses a font path prefix map: `source=target` pairs separated by `;`.
/// Empty pairs and pairs without `=` are skipped; a pair is split at its
/// first `=`.
pub fn parse_prefix_map(mapping: &str) -> (r: Vec<(String, String)>)
    ensures
        pair_views(r@) == spec_parse_prefix_map(mapping@),
{
    let p = chars_of(mapping);
    let mut entries: Vec<(String, String)> = Vec::new();
    let mut cur: Vec<char> = Vec::new();
    let mut i: usize = 0;
    proof {
        assert(p@.take(0) =~= Seq::<char>::empty());
        assert(pair_views(entries@) =~= Seq::<(Seq<char>, Seq<char>)>::empty());
    }
    while i < p.len()
        invariant
            i <= p@.len(),
            pair_views(entries@) == prefix_map_entries(split_pieces(p@.take(i as int), ';').drop_last()),
            cur@ == split_pieces(p@.take(i as int), ';').last(),
            split_pieces(p@.take(i as int), ';').len() >= 1,
        decreases p@.len() - i,
    {
        let c = p[i];
        let ghost prev = p@.take(i as int);
        let ghost next = p@.take(i + 1);
        let ghost pieces = split_pieces(prev, ';');
        proof {
            assert(next.drop_last() =~= prev);
            assert(pieces.drop_last().push(pieces.last()) =~= pieces);
        }
        if c == ';' {
            push_entry(&mut entries, cur.as_slice());
            cur = Vec::new();
            proof {
                assert(split_pieces(next, ';').drop_last() =~= pieces);
                assert(cur@ =~= Seq::<char>::empty());
            }
        } else {
            cur.push(c);
            proof {
                assert(split_pieces(next, ';').drop_last() =~= pieces.drop_last());
            }
        }
        i = i + 1;
    }
    proof {
        assert(p@.take(p@.len() as int) =~= p@);
        let pieces = split_pieces(p@, ';');
        assert(pieces.drop_last().push(pieces.last()) =~= pieces);
    }
    push_entry(&mut entries, cur.as_slice());
    entries
}

/// `a` sorts before `b`: compared character by character by code point, a
/// proper prefix first. For UTF-8 text this is the byte order of `str`.
pub open spec fn chars_lt(a: Seq<char>, b: Seq<char>) -> bool
    decreases a.len(),
{
    if a.len() == 0 {
        b.len() > 0
    } else if b.len() == 0 {
        false
    } else if a[0] != b[0] {
        (a[0] as int) < (b[0] as int)
    } else {
        chars_lt(a.drop_first(), b.drop_first())
    }
}

/// No sequence sorts before itself, and of two different sequences exactly
/// one sorts first.
pub proof fn lemma_chars_lt_total(a: Seq<char>, b: Seq<char>)
    ensures
        !chars_lt(a, a),
        chars_lt(a, b) ==> !chars_lt(b, a),
        a != b ==> chars_lt(a, b) || chars_lt(b, a),
    decreases a.len(),
{
    if a.len() == 0 {
        if b.len() == 0 {
            assert(a =~= b);
        }
    } else {
        lemma_chars_lt_total(a.drop_first(), a.drop_first());
        if b.len() > 0 {
            lemma_chars_lt_total(a.drop_first(), b.drop_first());
            if a[0] != b[0] {
                assert((a[0] as int) != (b[0] as int));
            }
            if a[0] == b[0] && a != b {
                if a.drop_first() == b.drop_first() {
                    assert forall|k: int| 0 <= k < a.len() implies a[k] == b[k] by {
                        if k > 0 {
                            assert(a[k] == a.drop_first()[k - 1]);
                            assert(b[k] == b.drop_first()[k - 1]);
                        }
                    }
                    assert(a =~= b);
                }
            }
        }
    }
}

/// Sorting before is transitive.
pub proof fn lemma_chars_lt_trans(a: Seq<char>, b: Seq<char>, c: Seq<char>)
    requires
        chars_lt(a, b),
        chars_lt(b, c),
    ensures
        chars_lt(a, c),
    decreases a.len(),
{
    if a.len() > 0 && b.len() > 0 && c.len() > 0 && a[0] == b[0] && b[0] == c[0] {
        lemma_chars_lt_trans(a.drop_first(), b.drop_first(), c.drop_first());
    }
}

/// Each sequence sorts strictly before every later one.
pub open spec fn strictly_sorted(s: Seq<Seq<char>>) -> bool {
    forall|i: int, j: int| 0 <= i < j < s.len() ==> chars_lt(#[trigger] s[i], #[trigger] s[j])
}

/// The character sequences of a list of strings.
pub open spec fn string_views(v: Seq<String>) -> Seq<Seq<char>> {
    v.map_values(|s: String| s@)
}

/// Whether `a` sorts before `b`.
pub fn chars_less(a: &[char], b: &[char]) -> (r: bool)
    ensures
        r == chars_lt(a@, b@),
{
    let mut i: usize = 0;
    proof {
        assert(a@.skip(0) =~= a@);
        assert(b@.skip(0) =~= b@);
    }
    while i < a.len() && i < b.len()
        invariant
            i <= a@.len(),
            i <= b@.len(),
            chars_lt(a@, b@) == chars_lt(a@.skip(i as int), b@.skip(i as int)),
        decreases a@.len() - i,
    {
        if a[i] != b[i] {
            proof {
                assert(a@.skip(i as int)[0] == a@[i as int]);
                assert(b@.skip(i as int)[0] == b@[i as int]);
            }
            return a[i] < b[i];
        }
        proof {
            assert(a@.skip(i as int).drop_first() =~= a@.skip(i + 1));
            assert(b@.skip(i as int).drop_first() =~= b@.skip(i + 1));
        }
        i = i + 1;
    }
    proof {
        if i == a@.len() {
            assert(a@.skip(i as int).len() == 0);
        } else {
            assert(b@.skip(i as int).len() == 0);
        }
        assert(b@.skip(i as int).len() == b@.len() - i);
    }
    i < b.len()
}

/// Custom font paths, each once, in sorted order.
pub struct SortedFonts {
    fonts: Vec<String>,
}

impl View for SortedFonts {
    type V = Seq<Seq<char>>;

    closed spec fn view(&self) -> Seq<Seq<char>> {
        string_views(self.fonts@)
    }
}

impl SortedFonts {
    /// The fonts are in strictly increasing order, so none occurs twice.
    #[verifier::type_invariant]
    spec fn sorted_once(self) -> bool {
        strictly_sorted(string_views(self.fonts@))
    }

    /// No font.
    pub fn new() -> (r: Self)
        ensures
            r@ == Seq::<Seq<char>>::empty(),
            strictly_sorted(r@),
    {
        let r = SortedFonts { fonts: Vec::new() };
        assert(r@ =~= Seq::<Seq<char>>::empty());
        r
    }

    /// Adds `font` unless it is there already, keeping the order.
    pub fn insert(&mut self, font: String)
        ensures
            strictly_sorted(final(self)@),
            final(self)@.to_set() == old(self)@.to_set().insert(font@),
    {
        proof {
            use_type_invariant(&*self);
        }
        let ghost s = self@;
        let mut fonts: Vec<String> = Vec::new();
        std::mem::swap(&mut fonts, &mut self.fonts);
        assert(string_views(fonts@) == s);
        let f = chars_of(font.as_str());
        let mut p: usize = 0;
        while p < fonts.len() && chars_less(chars_of(fonts[p].as_str()).as_slice(), f.as_slice())
            invariant
                p <= fonts@.len(),
                s == string_views(fonts@),
                s.len() == fonts@.len(),
                f@ == font@,
                forall|j: int| 0 <= j < p ==> chars_lt(#[trigger] s[j], font@),
            decreases fonts@.len() - p,
        {
            p = p + 1;
        }
        if p < fonts.len() && crate::text::str_eq(fonts[p].as_str(), font.as_str()) {
            assert(s.to_set().insert(font@) =~= s.to_set()) by {
                assert(s[p as int] == font@);
            }
            self.fonts = fonts;
            return;
        }
        proof {
            if p < s.len() {
                lemma_chars_lt_total(s[p as int], font@);
            }
        }
        let ghost fv = font@;
        assert(p < s.len() ==> chars_lt(fv, s[p as int]));
        fonts.insert(p, font);
        let ghost t = string_views(fonts@);
        assert(t =~= s.insert(p as int, fv));
        assert forall|i: int, j: int| 0 <= i < j < t.len() implies chars_lt(#[trigger] t[i], #[trigger] t[j]) by {
            if j < p {
            } else if j == p {
            } else if i < p {
                if j > p + 1 {
                    lemma_chars_lt_trans(fv, s[p as int], s[j - 1]);
                }
                lemma_chars_lt_trans(t[i], fv, t[j]);
            } else if i == p {
                if j > p + 1 {
                    lemma_chars_lt_trans(fv, s[p as int], s[j - 1]);
                }
            } else {
            }
        }
        assert forall|x: Seq<char>| t.contains(x) <==> s.contains(x) || x == fv by {
            if s.contains(x) {
                let k = choose|k: int| 0 <= k < s.len() && s[k] == x;
                if k < p {
                    assert(t[k] == x);
                } else {
                    assert(t[k + 1] == x);
                }
            }
            if x == fv {
                assert(t[p as int] == x);
            }
            if t.contains(x) {
                let k = choose|k: int| 0 <= k < t.len() && t[k] == x;
                if k < p {
                    assert(s[k] == x);
                } else if k > p {
                    assert(s[k - 1] == x);
                }
            }
        }
        assert(t.to_set() =~= s.to_set().insert(fv));
        self.fonts = fonts;
    }

    /// The fonts in sorted order.
    pub fn into_vec(self) -> (r: Vec<String>)
        ensures
            string_views(r@) == self@,
            strictly_sorted(string_views(r@)),
    {
        proof {
            use_type_invariant(&self);
        }
        self.fonts
    }
}

/// The custom fonts of the documents: `font` is one of them.
pub open spec fn is_document_font(documents: Seq<Vec<String>>, font: Seq<char>) -> bool {
    exists|d: int, k: int| 0 <= d < documents.len() && 0 <= k < documents[d]@.len() && (#[trigger] documents[d]@[k])@ == font
}

/// Every custom font of the given documents, each once, in sorted order.
pub fn sorted_custom_fonts(documents: &[Vec<String>]) -> (r: Vec<String>)
    ensures
        strictly_sorted(string_views(r@)),
        forall|f: Seq<char>| string_views(r@).contains(f) <==> is_document_font(documents@, f),
{
    let mut set = SortedFonts::new();
    let mut d: usize = 0;
    while d < documents.len()
        invariant
            d <= documents@.len(),
            strictly_sorted(set@),
            forall|f: Seq<char>| set@.contains(f) <==> exists|e: int, k: int|
                0 <= e < d && 0 <= k < documents@[e]@.len() && (#[trigger] documents@[e]@[k])@ == f,
        decreases documents@.len() - d,
    {
        let doc = &documents[d];
        let mut k: usize = 0;
        while k < doc.len()
            invariant
                d < documents@.len(),
                doc == documents@[d as int],
                k <= doc@.len(),
                strictly_sorted(set@),
                forall|f: Seq<char>| set@.contains(f) <==> (exists|e: int, j: int|
                    0 <= e < d && 0 <= j < documents@[e]@.len() && (#[trigger] documents@[e]@[j])@ == f)
                    || (exists|j: int| 0 <= j < k && (#[trigger] doc@[j])@ == f),
            decreases doc@.len() - k,
        {
            let ghost before = set@;
            let font = doc[k].clone();
            set.insert(font);
            proof {
                assert forall|f: Seq<char>| set@.contains(f) <==> (exists|e: int, j: int|
                    0 <= e < d && 0 <= j < documents@[e]@.len() && (#[trigger] documents@[e]@[j])@ == f)
                    || (exists|j: int| 0 <= j < k + 1 && (#[trigger] doc@[j])@ == f) by {
                    assert(set@.contains(f) <==> set@.to_set().contains(f));
                    assert(before.contains(f) <==> before.to_set().contains(f));
                    if f == doc@[k as int]@ {
                        assert(doc@[k as int]@ == f);
                    }
                    if exists|j: int| 0 <= j < k + 1 && (#[trigger] doc@[j])@ == f {
                        let j = choose|j: int| 0 <= j < k + 1 && (#[trigger] doc@[j])@ == f;
                        if j < k {
                            assert(exists|j: int| 0 <= j < k && (#[trigger] doc@[j])@ == f);
                        }
                    }
                }
            }
            k = k + 1;
        }
        proof {
            assert forall|f: Seq<char>| set@.contains(f) <==> exists|e: int, k: int|
                0 <= e < d + 1 && 0 <= k < documents@[e]@.len() && (#[trigger] documents@[e]@[k])@ == f by {
                if exists|e: int, k: int| 0 <= e < d + 1 && 0 <= k < documents@[e]@.len() && (#[trigger] documents@[e]@[k])@ == f {
                    let (e, j) = choose|e: int, k: int| 0 <= e < d + 1 && 0 <= k < documents@[e]@.len() && (#[trigger] documents@[e]@[k])@ == f;
                    if e == d {
                        assert(doc@[j]@ == f);
                    }
                }
                if exists|j: int| 0 <= j < doc@.len() && (#[trigger] doc@[j])@ == f {
                    let j = choose|j: int| 0 <= j < doc@.len() && (#[trigger] doc@[j])@ == f;
                    assert(documents@[d as int]@[j]@ == f);
                }
            }
        }
        d = d + 1;
    }
    let r = set.into_vec();
    assert forall|f: Seq<char>| string_views(r@).contains(f) <==> is_document_font(documents@, f) by {
        if is_document_font(documents@, f) {
            let (e, j) = choose|e: int, k: int| 0 <= e < documents@.len() && 0 <= k < documents@[e]@.len() && (#[trigger] documents@[e]@[k])@ == f;
            assert(documents@[e]@[j]@ == f);
        }
    }
    r
}

/// What kind of data an embedded resource holds.
#[derive(Copy, Clone, Debug, PartialEq, Eq, Structural)]
pub enum EmbeddedResourcesKind {
    /// The file's bytes as they are (fonts are embedded so).
    RawData,
    /// Any other kind, such as a decoded image; fonts never create these.
    Other,
}

/// An embedded resource: its id and the kind of data it holds.
#[derive(Copy, Clone, Debug, PartialEq, Eq, Structural)]
pub struct EmbeddedResource {
    pub id: usize,
    pub kind: EmbeddedResourcesKind,
}

/// The embedded resources after the file at `path` is given an id: a file
/// that has one keeps its id and kind; a new file gets the next id, the
/// number of resources so far, as raw data.
pub open spec fn with_resource(entries: Seq<(Seq<char>, EmbeddedResource)>, path: Seq<char>) -> Seq<(Seq<char>, EmbeddedResource)> {
    if lookup_entry(entries, path) is Some {
        entries
    } else {
        entries.push((path, EmbeddedResource { id: entries.len() as usize, kind: EmbeddedResourcesKind::RawData }))
    }
}

/// The embedded resources after each of `paths` is given an id, in order.
pub open spec fn with_resources(entries: Seq<(Seq<char>, EmbeddedResource)>, paths: Seq<Seq<char>>) -> Seq<(Seq<char>, EmbeddedResource)>
    decreases paths.len(),
{
    if paths.len() == 0 {
        entries
    } else {
        with_resource(with_resources(entries, paths.drop_last()), paths.last())
    }
}

/// The id of the embedded resource for the file at `path`, giving it the
/// next id, as raw data, when it has none yet.
pub fn embedded_resource_id(resources: &mut PathMap<EmbeddedResource>, path: &str) -> (id: usize)
    ensures
        final(resources)@ == with_resource(old(resources)@, path@),
        lookup_entry(final(resources)@, path@) matches Some(res) && res.id == id,
{
    match resources.get(path) {
        Some(res) => res.id,
        None => {
            let id = resources.len();
            resources.insert(path.to_owned(), EmbeddedResource { id, kind: EmbeddedResourcesKind::RawData });
            proof {
                crate::lookup::lemma_first_none_means_none(old(resources)@, crate::path_map::entry_for::<EmbeddedResource>(path@));
            }
            id
        },
    }
}

/// How the init code registers one custom font.
#[derive(Debug)]
pub enum FontRegistration {
    /// From the embedded resource with this id.
    ByMemory(usize),
    /// From the file at this path: the font's path with the prefix map
    /// applied when the registration code is generated.
    ByPath(String),
}

/// The registrations of the given fonts, in order: with `embed`, each font
/// is registered by the id of its embedded resource (new resources get ids
/// in order, as raw data); otherwise each is registered by its path under
/// the prefix map `prefix_map`, matched against `canonical_fonts`, the
/// canonical forms of the fonts' paths (where the file system resolves them;
/// the paths as given otherwise). An empty prefix map leaves paths as they are.
pub fn font_registrations(
    fonts: &[String],
    embed: bool,
    resources: &mut PathMap<EmbeddedResource>,
    canonical_fonts: &[String],
    prefix_map: &[(String, String)],
) -> (r: Vec<FontRegistration>)
    requires
        !embed ==> canonical_fonts@.len() == fonts@.len(),
    ensures
        r@.len() == fonts@.len(),
        embed ==> final(resources)@ == with_resources(old(resources)@, string_views(fonts@)),
        !embed ==> final(resources)@ == old(resources)@,
        forall|k: int| 0 <= k < fonts@.len() ==> if embed {
            (#[trigger] r@[k]) matches FontRegistration::ByMemory(id) && lookup_entry(final(resources)@, fonts@[k]@) matches Some(res) && res.id == id
        } else {
            r@[k] matches FontRegistration::ByPath(p) && p@ == spec_mapped_font_path(
                fonts@[k]@,
                canonical_fonts@[k]@,
                pair_views(prefix_map@),
            )
        },
{
    let mut r: Vec<FontRegistration> = Vec::new();
    let mut i: usize = 0;
    proof {
        assert(string_views(fonts@).take(0) =~= Seq::<Seq<char>>::empty());
    }
    while i < fonts.len()
        invariant
            i <= fonts@.len(),
            r@.len() == i,
            embed ==> resources@ == with_resources(old(resources)@, string_views(fonts@).take(i as int)),
            !embed ==> resources@ == old(resources)@,
            forall|k: int| 0 <= k < i ==> if embed {
                    (#[trigger] r@[k]) matches FontRegistration::ByMemory(id) && lookup_entry(resources@, fonts@[k]@) matches Some(res) && res.id == id
            } else {
                r@[k] matches FontRegistration::ByPath(p) && p@ == spec_mapped_font_path(
                    fonts@[k]@,
                    canonical_fonts@[k]@,
                    pair_views(prefix_map@),
                )
            },
            !embed ==> canonical_fonts@.len() == fonts@.len(),
        decreases fonts@.len() - i,
    {
        if embed {
            let ghost before = resources@;
            let id = embedded_resource_id(resources, fonts[i].as_str());
            proof {
                assert(string_views(fonts@).take(i + 1).drop_last() =~= string_views(fonts@).take(i as int));
                lemma_with_resource_keeps(before, fonts@[i as int]@);
            }
            r.push(FontRegistration::ByMemory(id));
        } else {
            let mapped = mapped_font_path(fonts[i].as_str(), canonical_fonts[i].as_str(), prefix_map);
            r.push(FontRegistration::ByPath(mapped));
        }
        i = i + 1;
    }
    proof {
        assert(string_views(fonts@).take(fonts@.len() as int) =~= string_views(fonts@));
    }
    r
}

/// Giving one more file an id keeps the ids of every other file.
pub proof fn lemma_with_resource_keeps(entries: Seq<(Seq<char>, EmbeddedResource)>, path: Seq<char>)
    ensures
        forall|k: Seq<char>| lookup_entry(entries, k) is Some ==> lookup_entry(with_resource(entries, path), k) == lookup_entry(entries, k),
{
    assert forall|k: Seq<char>| lookup_entry(entries, k) is Some implies lookup_entry(with_resource(entries, path), k) == lookup_entry(entries, k) by {
        if lookup_entry(entries, path) is None {
            let pred = crate::path_map::entry_for::<EmbeddedResource>(k);
            let j = crate::lookup::first_index(entries, pred)->0;
            crate::lookup::lemma_first_is_first(entries, pred);
            let t = entries.push((path, EmbeddedResource { id: entries.len() as usize, kind: EmbeddedResourcesKind::RawData }));
            assert(crate::lookup::is_first(t, pred, j));
            crate::lookup::lemma_first_index_found(t, pred, j);
        }
    }
}

/// Two strictly sorted lists of the same fonts are the same list: the
/// registration order depends only on which fonts the documents use, not on
/// the order of the documents or of their fonts.
pub proof fn law_sorted_fonts_are_unique(a: Seq<Seq<char>>, b: Seq<Seq<char>>)
    requires
        strictly_sorted(a),
        strictly_sorted(b),
        a.to_set() == b.to_set(),
    ensures
        a == b,
    decreases a.len(),
{
    if a.len() == 0 {
        if b.len() > 0 {
            assert(b.to_set().contains(b[0]));
        }
        assert(a =~= b);
    } else {
        assert(a.to_set().contains(a[0]));
        assert(b.len() > 0);
        assert(b.to_set().contains(b[0]));
        let j = choose|j: int| 0 <= j < b.len() && b[j] == a[0];
        let i = choose|i: int| 0 <= i < a.len() && a[i] == b[0];
        lemma_chars_lt_total(a[0], a[0]);
        if j > 0 {
            assert(chars_lt(b[0], b[j]));
            if i > 0 {
                assert(chars_lt(a[0], a[i]));
                lemma_chars_lt_total(a[0], a[i]);
            }
        }
        assert(a[0] == b[0]);
        let a1 = a.drop_first();
        let b1 = b.drop_first();
        assert(strictly_sorted(a1)) by {
            assert forall|x: int, y: int| 0 <= x < y < a1.len() implies chars_lt(#[trigger] a1[x], #[trigger] a1[y]) by {
                assert(a1[x] == a[x + 1] && a1[y] == a[y + 1]);
            }
        }
        assert(strictly_sorted(b1)) by {
            assert forall|x: int, y: int| 0 <= x < y < b1.len() implies chars_lt(#[trigger] b1[x], #[trigger] b1[y]) by {
                assert(b1[x] == b[x + 1] && b1[y] == b[y + 1]);
            }
        }
        assert forall|x: Seq<char>| a1.to_set().contains(x) <==> b1.to_set().contains(x) by {
            if a1.contains(x) {
                let k = choose|k: int| 0 <= k < a1.len() && a1[k] == x;
                assert(a.contains(x)) by {
                    assert(a[k + 1] == x);
                }
                assert(b.to_set().contains(x));
                let m = choose|m: int| 0 <= m < b.len() && b[m] == x;
                assert(chars_lt(a[0], a[k + 1]));
                if m == 0 {
                    lemma_chars_lt_total(a[0], a[0]);
                }
                assert(b1[m - 1] == x);
            }
            if b1.contains(x) {
                let k = choose|k: int| 0 <= k < b1.len() && b1[k] == x;
                assert(b.contains(x)) by {
                    assert(b[k + 1] == x);
                }
                assert(a.to_set().contains(x));
                let m = choose|m: int| 0 <= m < a.len() && a[m] == x;
                assert(chars_lt(b[0], b[k + 1]));
                if m == 0 {
                    lemma_chars_lt_total(b[0], b[0]);
                }
                assert(a1[m - 1] == x);
            }
        }
        assert(a1.to_set() =~= b1.to_set());
        law_sorted_fonts_are_unique(a1, b1);
        assert(a =~= b) by {
            assert forall|k: int| 0 <= k < a.len() implies a[k] == b[k] by {
                if k > 0 {
                    assert(a[k] == a1[k - 1]);
                    assert(b[k] == b1[k - 1]);
                }
            }
        }
    }
}

/// Every resource's id is its position: true of resources that got their
/// ids from `with_resource` alone.
pub open spec fn ids_are_positions(entries: Seq<(Seq<char>, EmbeddedResource)>) -> bool {
    forall|i: int| 0 <= i < entries.len() ==> (#[trigger] entries[i]).1.id == i
}

/// Giving files ids keeps each id at its position, a file keeps its id and
/// kind, a new file becomes raw data with the next id, and two different
/// files never share an id.
pub proof fn law_resource_ids_are_distinct(entries: Seq<(Seq<char>, EmbeddedResource)>, path: Seq<char>, p: Seq<char>, q: Seq<char>)
    requires
        ids_are_positions(entries),
        entries.len() < usize::MAX,
    ensures
        ids_are_positions(with_resource(entries, path)),
        lookup_entry(entries, p) is Some ==> lookup_entry(with_resource(entries, path), p) == lookup_entry(entries, p),
        lookup_entry(entries, path) is None ==> lookup_entry(with_resource(entries, path), path) == Some(
            EmbeddedResource { id: entries.len() as usize, kind: EmbeddedResourcesKind::RawData },
        ),
        p != q && lookup_entry(entries, p) is Some && lookup_entry(entries, q) is Some ==> lookup_entry(entries, p)->0.id
            != lookup_entry(entries, q)->0.id,
{
    lemma_with_resource_keeps(entries, path);
    if lookup_entry(entries, path) is None {
        let pr = crate::path_map::entry_for::<EmbeddedResource>(path);
        crate::lookup::lemma_first_none_means_none(entries, pr);
        let t = with_resource(entries, path);
        assert(crate::lookup::is_first(t, pr, entries.len() as int));
        crate::lookup::lemma_first_index_found(t, pr, entries.len() as int);
    }
    if p != q && lookup_entry(entries, p) is Some && lookup_entry(entries, q) is Some {
        let pp = crate::path_map::entry_for::<EmbeddedResource>(p);
        let pq = crate::path_map::entry_for::<EmbeddedResource>(q);
        crate::lookup::lemma_first_is_first(entries, pp);
        crate::lookup::lemma_first_is_first(entries, pq);
        let i = first_index(entries, pp)->0;
        let j = first_index(entries, pq)->0;
        assert(entries[i].0 == p && entries[j].0 == q);
        assert(i != j);
    }
}

/// The path that `std::path::Path::strip_prefix` leaves of `path` after the
/// prefix `base`, as text, or nothing when `base` is not a prefix of `path`
/// component by component.
pub uninterp spec fn path_strip_prefix(path: Seq<char>, base: Seq<char>) -> Option<Seq<char>>;

/// The text of `std::path::Path::join` of `base` and `rest`.
pub uninterp spec fn path_join(base: Seq<char>, rest: Seq<char>) -> Seq<char>;

/// Strips the prefix `base` from `path` with `std::path::Path::strip_prefix`.
/// Trusted: the result is the named `path_strip_prefix` of the arguments;
/// how std compares components is not stated.
#[verifier::external_body]
fn strip_path_prefix(path: &str, base: &str) -> (r: Option<String>)
    ensures
        match r {
            Some(rest) => path_strip_prefix(path@, base@) == Some(rest@),
            None => path_strip_prefix(path@, base@) is None,
        },
{
    match std::path::Path::new(path).strip_prefix(base) {
        Ok(rest) => Some(rest.to_string_lossy().into_owned()),
        Err(_) => None,
    }
}

/// Joins `rest` onto `base` with `std::path::Path::join`.
/// Trusted: the result is the named `path_join` of the arguments; how std
/// places separators is not stated.
#[verifier::external_body]
fn join_paths(base: &str, rest: &str) -> (r: String)
    ensures
        r@ == path_join(base@, rest@),
{
    std::path::Path::new(base).join(rest).to_string_lossy().into_owned()
}

/// Matches the prefix-map entries whose source is a prefix of `path`.
pub open spec fn source_prefixes(path: Seq<char>) -> spec_fn((Seq<char>, Seq<char>)) -> bool {
    |e: (Seq<char>, Seq<char>)| path_strip_prefix(path, e.0) is Some
}

/// The run-time path of the font at `font_path` (whose canonical form is
/// `path`) under the prefix map `entries` (each a source and a target): the
/// first entry whose source is a prefix of `path` has that prefix replaced
/// by its target; with none, the font path stays as it was given.
pub open spec fn spec_mapped_font_path(
    font_path: Seq<char>,
    path: Seq<char>,
    entries: Seq<(Seq<char>, Seq<char>)>,
) -> Seq<char> {
    match first_index(entries, source_prefixes(path)) {
        Some(i) => path_join(entries[i].1, path_strip_prefix(path, entries[i].0)->0),
        None => font_path,
    }
}

/// The first entry of the prefix map whose source is a prefix of the
/// canonical path decides the run-time path, whatever later entries match:
/// its target replaces the stripped source.
pub proof fn law_first_matching_entry_wins(
    font_path: Seq<char>,
    path: Seq<char>,
    entries: Seq<(Seq<char>, Seq<char>)>,
    i: int,
)
    requires
        0 <= i < entries.len(),
        path_strip_prefix(path, entries[i].0) is Some,
        forall|j: int| 0 <= j < i ==> path_strip_prefix(path, (#[trigger] entries[j]).0) is None,
    ensures
        spec_mapped_font_path(font_path, path, entries) == path_join(
            entries[i].1,
            path_strip_prefix(path, entries[i].0)->0,
        ),
{
    assert(is_first(entries, source_prefixes(path), i));
    lemma_first_index_found(entries, source_prefixes(path), i);
}

/// A font whose canonical path starts with no source of the prefix map
/// keeps the path it was given.
pub proof fn law_unmatched_font_path_is_kept(
    font_path: Seq<char>,
    path: Seq<char>,
    entries: Seq<(Seq<char>, Seq<char>)>,
)
    requires
        forall|j: int| 0 <= j < entries.len() ==> path_strip_prefix(path, (#[trigger] entries[j]).0) is None,
    ensures
        spec_mapped_font_path(font_path, path, entries) == font_path,
{
    assert forall|j: int| 0 <= j < entries.len() implies !(#[trigger] source_prefixes(path)(entries[j])) by {
        assert(path_strip_prefix(path, entries[j].0) is None);
    }
    lemma_first_index_none(entries, source_prefixes(path));
}

/// The run-time path of the font at `font_path` under the prefix map
/// `entries`. The caller passes in `canonical_path` the font path, and in
/// each entry the source, in canonical form where the file system can
/// resolve them (as given otherwise).
pub fn mapped_font_path(font_path: &str, canonical_path: &str, entries: &[(String, String)]) -> (r: String)
    ensures
        r@ == spec_mapped_font_path(font_path@, canonical_path@, pair_views(entries@)),
{
    let ghost views = pair_views(entries@);
    let mut i: usize = 0;
    while i < entries.len()
        invariant
            i <= entries@.len(),
            views == pair_views(entries@),
            forall|j: int| 0 <= j < i ==> !(#[trigger] source_prefixes(canonical_path@)(views[j])),
        decreases entries@.len() - i,
    {
        match strip_path_prefix(canonical_path, entries[i].0.as_str()) {
            Some(rest) => {
                proof {
                    assert(views[i as int] == (entries@[i as int].0@, entries@[i as int].1@));
                    assert(is_first(views, source_prefixes(canonical_path@), i as int));
                    lemma_first_index_found(views, source_prefixes(canonical_path@), i as int);
                }
                return join_paths(entries[i].1.as_str(), rest.as_str());
            },
            None => {
                assert(views[i as int] == (entries@[i as int].0@, entries@[i as int].1@));
            },
        }
        i = i + 1;
    }
    proof {
        lemma_first_index_none(views, source_prefixes(canonical_path@));
    }
    font_path.to_owned()
}

} // verus!
