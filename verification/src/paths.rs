//! '/'-separated paths, read component by component the way
//! `std::path::Path::iter` yields them on Unix (a leading `/` is a root
//! component of its own) and then resolved against `..` entries; and the
//! lexical cleaning of paths given by their `std::path` components.

use vstd::prelude::*;

verus! {

/// The pieces of `s` between occurrences of `sep`, in order. There is
/// always at least one piece; empty pieces stand for adjacent separators.
pub open spec fn split_pieces(s: Seq<char>, sep: char) -> Seq<Seq<char>>
    decreases s.len(),
{
    if s.len() == 0 {
        seq![Seq::empty()]
    } else {
        let rest = split_pieces(s.drop_last(), sep);
        if s.last() == sep {
            rest.push(Seq::empty())
        } else {
            rest.update(rest.len() - 1, rest.last().push(s.last()))
        }
    }
}

/// `split_pieces` never yields an empty list.
pub proof fn lemma_split_pieces_nonempty(s: Seq<char>, sep: char)
    ensures
        split_pieces(s, sep).len() >= 1,
    decreases s.len(),
{
    if s.len() > 0 {
        lemma_split_pieces_nonempty(s.drop_last(), sep);
    }
}

/// The character sequences held by a list of character vectors.
pub open spec fn char_vecs(v: Seq<Vec<char>>) -> Seq<Seq<char>> {
    v.map_values(|x: Vec<char>| x@)
}

/// Appending characters other than the separator extends the last piece.
pub proof fn lemma_split_append_plain(x: Seq<char>, y: Seq<char>, sep: char)
    requires
        !y.contains(sep),
    ensures
        split_pieces(x + y, sep) == split_pieces(x, sep).update(
            split_pieces(x, sep).len() - 1,
            split_pieces(x, sep).last() + y,
        ),
    decreases y.len(),
{
    lemma_split_pieces_nonempty(x, sep);
    if y.len() == 0 {
        assert(x + y =~= x);
        assert(split_pieces(x, sep).last() + y =~= split_pieces(x, sep).last());
        assert(split_pieces(x, sep).update(split_pieces(x, sep).len() - 1, split_pieces(x, sep).last())
            =~= split_pieces(x, sep));
    } else {
        let y0 = y.drop_last();
        assert(!y0.contains(sep)) by {
            if y0.contains(sep) {
                let i = choose|i: int| 0 <= i < y0.len() && y0[i] == sep;
                assert(y[i] == sep);
            }
        }
        assert(y.last() != sep) by {
            assert(y[y.len() - 1] == y.last());
        }
        lemma_split_append_plain(x, y0, sep);
        assert((x + y).drop_last() =~= x + y0);
        assert((x + y).last() == y.last());
        let px = split_pieces(x, sep);
        let p0 = px.update(px.len() - 1, px.last() + y0);
        assert(p0.last() == px.last() + y0);
        assert(p0.last().push(y.last()) =~= px.last() + y);
        assert(p0.update(p0.len() - 1, p0.last().push(y.last())) =~= px.update(px.len() - 1, px.last() + y));
    }
}

/// A path of two plain names joined by '/' has exactly those two components.
pub proof fn lemma_two_components(a: Seq<char>, b: Seq<char>)
    requires
        !a.contains('/'),
        !b.contains('/'),
        a.len() > 0,
        b.len() > 0,
        a != cur_dir(),
        a != parent_dir(),
        b != cur_dir(),
        b != parent_dir(),
    ensures
        resolved_components(a + seq!['/'] + b) == seq![a, b],
{
    assert((a + seq!['/'] + b)[0] == a[0]);
    assert(a[0] != '/') by {
        if a[0] == '/' {
            assert(a.contains('/'));
        }
    }
    assert(path_pieces(a + seq!['/'] + b) == split_pieces(a + seq!['/'] + b, '/'));
    let e = Seq::<char>::empty();
    lemma_split_append_plain(e, a, '/');
    assert(e + a =~= a);
    assert(split_pieces(e, '/') == seq![e]);
    assert(split_pieces(a, '/') =~= seq![a]) by {
        assert(seq![e].update(0, e + a) =~= seq![a]);
    }
    let a1 = a + seq!['/'];
    assert(a1.drop_last() =~= a);
    assert(split_pieces(a1, '/') =~= seq![a, e]);
    lemma_split_append_plain(a1, b, '/');
    assert(seq![a, e].update(1, e + b) =~= seq![a, b]);
    let pieces = seq![a, b];
    assert(pieces.drop_last() =~= seq![a]);
    assert(seq![a].drop_last() =~= Seq::<Seq<char>>::empty());
    assert(seq![a].last() == a);
    assert(resolve_pieces(Seq::<Seq<char>>::empty()) == Seq::<Seq<char>>::empty());
    assert(resolve_pieces(seq![a]) == resolve_step(resolve_pieces(seq![a].drop_last()), a));
    assert(resolve_step(Seq::<Seq<char>>::empty(), a) =~= seq![a]);
    assert(resolve_pieces(seq![a]) =~= seq![a]);
    assert(pieces.last() == b);
    assert(resolve_step(seq![a], b) =~= seq![a, b]);
    assert(resolve_pieces(pieces) =~= seq![a, b]);
}

/// A plain name: not empty, without '/', and neither `.` nor `..`.
pub open spec fn is_plain_name(c: Seq<char>) -> bool {
    &&& !c.contains('/')
    &&& c.len() > 0
    &&& c != cur_dir()
    &&& c != parent_dir()
}

/// The components that resolving keeps are plain names, except that the
/// first one may be the root.
pub proof fn lemma_resolved_are_plain(pieces: Seq<Seq<char>>)
    requires
        forall|i: int| 0 < i < pieces.len() ==> !(#[trigger] pieces[i]).contains('/'),
        pieces.len() > 0 ==> !pieces[0].contains('/') || pieces[0] == root_dir(),
    ensures
        forall|i: int|
            0 <= i < resolve_pieces(pieces).len() ==> is_plain_name(#[trigger] resolve_pieces(pieces)[i])
                || (i == 0 && resolve_pieces(pieces)[i] == root_dir()),
    decreases pieces.len(),
{
    if pieces.len() > 0 {
        let q = pieces.drop_last();
        assert forall|i: int| 0 < i < q.len() implies !(#[trigger] q[i]).contains('/') by {
            assert(q[i] == pieces[i]);
        }
        if q.len() > 0 {
            assert(q[0] == pieces[0]);
        }
        lemma_resolved_are_plain(q);
        assert(pieces.last() == pieces[pieces.len() - 1]);
        let r = resolve_pieces(q);
        let p = pieces.last();
        let t = resolve_pieces(pieces);
        assert(t == resolve_step(r, p));
        assert(root_dir()[0] != cur_dir()[0]);
        assert(root_dir() != parent_dir());
        assert forall|i: int| 0 <= i < t.len() implies is_plain_name(#[trigger] t[i]) || (i == 0 && t[i]
            == root_dir()) by {
            if p.len() == 0 || p == cur_dir() {
                assert(t[i] == r[i]);
            } else if p == parent_dir() {
                assert(t[i] == r[i]);
            } else if i < r.len() {
                assert(t[i] == r[i]);
            } else {
                assert(t[i] == p);
                if pieces.len() == 1 {
                    assert(r.len() == 0);
                }
            }
        }
    }
}

/// The components of a path are plain names, except that the first one may
/// be the root.
pub proof fn lemma_path_components_plain(p: Seq<char>)
    ensures
        forall|i: int|
            0 <= i < resolved_components(p).len() ==> is_plain_name(#[trigger] resolved_components(p)[i])
                || (i == 0 && resolved_components(p)[i] == root_dir()),
{
    lemma_split_pieces_plain(p, '/');
    let sp = split_pieces(p, '/');
    let pieces = path_pieces(p);
    if p.len() > 0 && p[0] == '/' {
        assert forall|i: int| 0 < i < pieces.len() implies !(#[trigger] pieces[i]).contains('/') by {
            assert(pieces[i] == sp[i - 1]);
        }
        assert(pieces[0] == root_dir());
    } else {
        lemma_split_pieces_nonempty(p, '/');
    }
    lemma_resolved_are_plain(pieces);
}

/// No piece of `split_pieces` holds the separator.
pub proof fn lemma_split_pieces_plain(s: Seq<char>, sep: char)
    ensures
        forall|i: int| 0 <= i < split_pieces(s, sep).len() ==> !(#[trigger] split_pieces(s, sep)[i]).contains(sep),
    decreases s.len(),
{
    lemma_split_pieces_nonempty(s, sep);
    if s.len() > 0 {
        lemma_split_pieces_plain(s.drop_last(), sep);
        lemma_split_pieces_nonempty(s.drop_last(), sep);
        let rest = split_pieces(s.drop_last(), sep);
        if s.last() != sep {
            let l = rest.last();
            assert(!l.contains(sep)) by {
                assert(rest[rest.len() - 1] == l);
            }
            assert(!l.push(s.last()).contains(sep)) by {
                if l.push(s.last()).contains(sep) {
                    let k = choose|k: int| 0 <= k < l.push(s.last()).len() && l.push(s.last())[k] == sep;
                    if k < l.len() {
                        assert(l[k] == sep);
                    }
                }
            }
        } else {
            assert(!Seq::<char>::empty().contains(sep));
        }
    }
}

/// The current-directory component.
pub open spec fn cur_dir() -> Seq<char> {
    seq!['.']
}

/// The parent-directory component.
pub open spec fn parent_dir() -> Seq<char> {
    seq!['.', '.']
}

/// The root component that a path starting with `/` begins with.
pub open spec fn root_dir() -> Seq<char> {
    seq!['/']
}

/// The components kept after reading `piece` on top of `kept`: empty pieces
/// and `.` are skipped, `..` drops the last kept component (if any), and
/// every other piece is kept.
pub open spec fn resolve_step(kept: Seq<Seq<char>>, piece: Seq<char>) -> Seq<Seq<char>> {
    if piece.len() == 0 || piece == cur_dir() {
        kept
    } else if piece == parent_dir() {
        if kept.len() > 0 {
            kept.drop_last()
        } else {
            kept
        }
    } else {
        kept.push(piece)
    }
}

/// The components left after reading all `pieces` from left to right.
pub open spec fn resolve_pieces(pieces: Seq<Seq<char>>) -> Seq<Seq<char>>
    decreases pieces.len(),
{
    if pieces.len() == 0 {
        seq![]
    } else {
        resolve_step(resolve_pieces(pieces.drop_last()), pieces.last())
    }
}

/// The pieces of the path `p`: a root piece when `p` starts with `/`, then
/// the pieces between its separators.
pub open spec fn path_pieces(p: Seq<char>) -> Seq<Seq<char>> {
    if p.len() > 0 && p[0] == '/' {
        seq![root_dir()] + split_pieces(p, '/')
    } else {
        split_pieces(p, '/')
    }
}

/// The resolved components of the path `p`.
pub open spec fn resolved_components(p: Seq<char>) -> Seq<Seq<char>> {
    resolve_pieces(path_pieces(p))
}

/// Reads the '/'-separated path `p` and returns its components: a leading
/// `/` gives the root component `/`, empty and `.` components are dropped
/// and each `..` removes the component before it.
pub fn resolve_path(p: &[char]) -> (comps: Vec<Vec<char>>)
    ensures
        char_vecs(comps@) == resolved_components(p@),
{
    let mut comps: Vec<Vec<char>> = Vec::new();
    let ghost mut lead: Seq<Seq<char>> = Seq::empty();
    if p.len() > 0 && p[0] == '/' {
        let root: Vec<char> = vec!['/'];
        comps.push(root);
        proof {
            lead = seq![root_dir()];
            assert(lead.drop_last() =~= Seq::<Seq<char>>::empty());
            assert(lead.last() == root_dir());
            assert(root_dir()[0] != cur_dir()[0]);
            assert(root_dir().len() != parent_dir().len());
            assert(resolve_step(Seq::<Seq<char>>::empty(), root_dir()) =~= seq![root_dir()]);
            assert(comps@[0]@ =~= root_dir());
            assert(resolve_pieces(Seq::<Seq<char>>::empty()) == Seq::<Seq<char>>::empty());
            assert(resolve_pieces(lead) == resolve_step(resolve_pieces(lead.drop_last()), lead.last()));
            assert(comps@.len() == 1);
            assert(char_vecs(comps@)[0] == comps@[0]@);
            assert(char_vecs(comps@) =~= resolve_pieces(lead));
        }
    }
    let mut cur: Vec<char> = Vec::new();
    let mut i: usize = 0;
    proof {
        assert(p@.take(0) =~= Seq::<char>::empty());
        assert(lead + split_pieces(p@.take(0), '/').drop_last() =~= lead);
        assert(path_pieces(p@) =~= lead + split_pieces(p@, '/'));
    }
    while i < p.len()
        invariant
            i <= p@.len(),
            path_pieces(p@) == lead + split_pieces(p@, '/'),
            char_vecs(comps@) == resolve_pieces(lead + split_pieces(p@.take(i as int), '/').drop_last()),
            cur@ == split_pieces(p@.take(i as int), '/').last(),
            split_pieces(p@.take(i as int), '/').len() >= 1,
        decreases p@.len() - i,
    {
        let c = p[i];
        let ghost prev = p@.take(i as int);
        let ghost next = p@.take(i + 1);
        proof {
            assert(next.drop_last() =~= prev);
            assert(next.last() == c);
        }
        if c == '/' {
            let ghost pieces = split_pieces(prev, '/');
            proof {
                assert(pieces.drop_last().push(pieces.last()) =~= pieces);
            }
            push_resolved(&mut comps, cur);
            cur = Vec::new();
            proof {
                assert(split_pieces(next, '/') == pieces.push(Seq::empty()));
                assert(split_pieces(next, '/').drop_last() =~= pieces);
                assert((lead + pieces).drop_last() =~= lead + pieces.drop_last());
                assert((lead + pieces).last() == pieces.last());
                assert(cur@ =~= Seq::<char>::empty());
            }
        } else {
            cur.push(c);
            proof {
                let pieces = split_pieces(prev, '/');
                assert(split_pieces(next, '/').drop_last() =~= pieces.drop_last());
            }
        }
        i = i + 1;
    }
    proof {
        assert(p@.take(p@.len() as int) =~= p@);
        let pieces = split_pieces(p@, '/');
        assert(pieces.drop_last().push(pieces.last()) =~= pieces);
        assert((lead + pieces).drop_last() =~= lead + pieces.drop_last());
        assert((lead + pieces).last() == pieces.last());
    }
    push_resolved(&mut comps, cur);
    comps
}

/// Applies `resolve_step` for one more piece.
fn push_resolved(comps: &mut Vec<Vec<char>>, piece: Vec<char>)
    ensures
        char_vecs(final(comps)@) == resolve_step(char_vecs(old(comps)@), piece@),
{
    let dot: [char; 1] = ['.'];
    let dotdot: [char; 2] = ['.', '.'];
    proof {
        assert(dot@ =~= cur_dir());
        assert(dotdot@ =~= parent_dir());
    }
    let ghost before = char_vecs(comps@);
    if piece.len() == 0 || crate::text::chars_eq(piece.as_slice(), dot.as_slice()) {
    } else if crate::text::chars_eq(piece.as_slice(), dotdot.as_slice()) {
        if comps.len() > 0 {
            comps.pop();
            assert(char_vecs(comps@) =~= before.drop_last());
        }
    } else {
        let ghost pv = piece@;
        comps.push(piece);
        assert(char_vecs(comps@) =~= before.push(pv));
    }
}

/// One component of a path, as `std::path::Path::components` yields it.
#[derive(Debug, PartialEq, Eq)]
pub enum PathComponent {
    /// A Windows prefix such as `C:`.
    Prefix(String),
    /// The root directory.
    RootDir,
    /// `.` at the start of a relative path.
    CurDir,
    /// `..`.
    ParentDir,
    /// A file or directory name.
    Normal(String),
}

impl Clone for PathComponent {
    fn clone(&self) -> (r: Self)
        ensures
            r == *self,
    {
        match self {
            PathComponent::Prefix(s) => PathComponent::Prefix(s.clone()),
            PathComponent::RootDir => PathComponent::RootDir,
            PathComponent::CurDir => PathComponent::CurDir,
            PathComponent::ParentDir => PathComponent::ParentDir,
            PathComponent::Normal(s) => PathComponent::Normal(s.clone()),
        }
    }
}

/// The components kept after reading `c` on top of `kept`: `.` is
/// skipped, `..` removes the last kept component when that is a name (a
/// root or prefix stays), and every other component is kept.
pub open spec fn clean_step(kept: Seq<PathComponent>, c: PathComponent) -> Seq<PathComponent> {
    match c {
        PathComponent::CurDir => kept,
        PathComponent::ParentDir => if kept.len() > 0 && kept.last() is Normal {
            kept.drop_last()
        } else {
            kept
        },
        _ => kept.push(c),
    }
}

/// The components left after reading `components` from left to right.
pub open spec fn clean_spec(components: Seq<PathComponent>) -> Seq<PathComponent>
    decreases components.len(),
{
    if components.len() == 0 {
        seq![]
    } else {
        clean_step(clean_spec(components.drop_last()), components.last())
    }
}

/// Two lists of components that clean to the same components still do so
/// after the same components are appended to both.
pub proof fn lemma_clean_append(x: Seq<PathComponent>, y: Seq<PathComponent>, tail: Seq<PathComponent>)
    requires
        clean_spec(x) == clean_spec(y),
    ensures
        clean_spec(x + tail) == clean_spec(y + tail),
    decreases tail.len(),
{
    if tail.len() == 0 {
        assert(x + tail =~= x);
        assert(y + tail =~= y);
    } else {
        lemma_clean_append(x, y, tail.drop_last());
        assert((x + tail).drop_last() =~= x + tail.drop_last());
        assert((y + tail).drop_last() =~= y + tail.drop_last());
        assert((x + tail).last() == tail.last());
        assert((y + tail).last() == tail.last());
    }
}

/// A name followed by `..` cancels out: cleaning a path with them gives the
/// same components as cleaning it without them.
pub proof fn law_name_then_parent_cancel(head: Seq<PathComponent>, name: String, tail: Seq<PathComponent>)
    ensures
        clean_spec(head + seq![PathComponent::Normal(name), PathComponent::ParentDir] + tail) == clean_spec(head + tail),
{
    let named = head.push(PathComponent::Normal(name));
    let with_both = head + seq![PathComponent::Normal(name), PathComponent::ParentDir];
    assert(named.drop_last() =~= head);
    assert(with_both.drop_last() =~= named);
    assert(clean_spec(named) == clean_spec(head).push(PathComponent::Normal(name)));
    assert(clean_spec(head).push(PathComponent::Normal(name)).drop_last() =~= clean_spec(head));
    assert(clean_spec(with_both) == clean_spec(head));
    lemma_clean_append(with_both, head, tail);
}

/// A `.` component changes nothing: cleaning a path with it gives the same
/// components as cleaning it without it.
pub proof fn law_cur_dir_is_dropped(head: Seq<PathComponent>, tail: Seq<PathComponent>)
    ensures
        clean_spec(head + seq![PathComponent::CurDir] + tail) == clean_spec(head + tail),
{
    let with_dot = head + seq![PathComponent::CurDir];
    assert(with_dot.drop_last() =~= head);
    assert(clean_spec(with_dot) == clean_spec(head));
    lemma_clean_append(with_dot, head, tail);
}

/// Lexically cleans a path given by its components: `.` components are
/// dropped and each `..` removes the name before it.
pub fn clean_components(components: &[PathComponent]) -> (r: Vec<PathComponent>)
    ensures
        r@ == clean_spec(components@),
{
    let mut kept: Vec<PathComponent> = Vec::new();
    let mut i: usize = 0;
    while i < components.len()
        invariant
            i <= components@.len(),
            kept@ == clean_spec(components@.take(i as int)),
        decreases components@.len() - i,
    {
        assert(components@.take(i + 1).drop_last() =~= components@.take(i as int));
        assert(components@.take(i + 1).last() == components@[i as int]);
        let ghost before = kept@;
        match &components[i] {
            PathComponent::CurDir => {},
            PathComponent::ParentDir => {
                if kept.len() > 0 {
                    let last_is_name = match &kept[kept.len() - 1] {
                        PathComponent::Normal(_) => true,
                        _ => false,
                    };
                    if last_is_name {
                        kept.pop();
                        assert(kept@ =~= before.drop_last());
                    }
                }
            },
            c => {
                kept.push(c.clone());
            },
        }
        i = i + 1;
    }
    assert(components@.take(components@.len() as int) =~= components@);
    kept
}

} // verus!
