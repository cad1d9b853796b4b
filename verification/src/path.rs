//! Paths as bytes: joining, and which paths are the same.
use vstd::prelude::*;

verus! {

/// The byte that separates the parts of a path.
pub const SLASH: u8 = 47;

/// The byte of a dot.
pub const DOT: u8 = 46;

/// The pieces between slashes, where `current` was read of the first one already.
pub open spec fn pieces_after(current: Seq<u8>, s: Seq<u8>) -> Seq<Seq<u8>>
    decreases s.len(),
{
    if s.len() == 0 {
        seq![current]
    } else if s[0] == SLASH {
        seq![current] + pieces_after(Seq::empty(), s.drop_first())
    } else {
        pieces_after(current.push(s[0]), s.drop_first())
    }
}

/// Whether the path starts at the root.
pub open spec fn absolute(s: Seq<u8>) -> bool {
    s.len() > 0 && s[0] == SLASH
}

/// Whether the piece is a single dot.
pub open spec fn is_dot(piece: Seq<u8>) -> bool {
    piece.len() == 1 && piece[0] == DOT
}

/// Whether the piece is two dots.
pub open spec fn is_dot_dot(piece: Seq<u8>) -> bool {
    piece.len() == 2 && piece[0] == DOT && piece[1] == DOT
}

/// The pieces that count: those that are not empty and, but for the first one, not a single dot.
pub open spec fn counting(pieces: Seq<Seq<u8>>) -> Seq<Seq<u8>>
    decreases pieces.len(),
{
    if pieces.len() == 0 {
        Seq::empty()
    } else {
        let rest = counting(pieces.drop_last());
        let p = pieces.last();
        if p.len() == 0 || (is_dot(p) && pieces.len() > 1) {
            rest
        } else {
            rest.push(p)
        }
    }
}

/// The components of a path but for the root.
pub open spec fn components(s: Seq<u8>) -> Seq<Seq<u8>> {
    counting(pieces_after(Seq::empty(), s))
}

/// Parts with a slash between each two.
pub open spec fn slashed(parts: Seq<Seq<u8>>) -> Seq<u8>
    decreases parts.len(),
{
    if parts.len() == 0 {
        Seq::empty()
    } else if parts.len() == 1 {
        parts[0]
    } else {
        slashed(parts.drop_last()).push(SLASH) + parts.last()
    }
}

/// The plain form of a path: two paths name the same thing by the same components exactly where
/// their plain forms are equal.
pub open spec fn plain(s: Seq<u8>) -> Seq<u8> {
    if absolute(s) {
        seq![SLASH] + slashed(components(s))
    } else {
        slashed(components(s))
    }
}

/// `name` below `parent`: a name that starts at the root stands for itself.
pub open spec fn joined(parent: Seq<u8>, name: Seq<u8>) -> Seq<u8> {
    if absolute(name) {
        name
    } else if parent.len() > 0 && parent.last() != SLASH {
        parent.push(SLASH) + name
    } else {
        parent + name
    }
}

/// The bytes of each part.
pub open spec fn parts_view(v: Seq<Vec<u8>>) -> Seq<Seq<u8>> {
    Seq::new(v.len(), |i: int| v[i]@)
}

/// The pieces between the slashes of a path.
fn split(s: &[u8]) -> (v: Vec<Vec<u8>>)
    ensures
        parts_view(v@) == pieces_after(Seq::empty(), s@),
        v@.len() > 0,
{
    let mut v: Vec<Vec<u8>> = Vec::new();
    let mut current: Vec<u8> = Vec::new();
    let mut i: usize = 0;
    assert(s@.subrange(0, s@.len() as int) =~= s@);
    assert(parts_view(v@) + pieces_after(current@, s@) =~= pieces_after(Seq::empty(), s@));
    while i < s.len()
        invariant
            i <= s@.len(),
            pieces_after(Seq::empty(), s@) == parts_view(v@) + pieces_after(
                current@,
                s@.subrange(i as int, s@.len() as int),
            ),
        decreases s@.len() - i,
    {
        let ghost rest = s@.subrange(i as int, s@.len() as int);
        let ghost before = parts_view(v@);
        let ghost so_far = current@;
        assert(rest.drop_first() =~= s@.subrange(i + 1, s@.len() as int));
        if s[i] == SLASH {
            v.push(current);
            current = Vec::new();
            assert(parts_view(v@) =~= before.push(so_far));
            assert(before + (seq![so_far] + pieces_after(Seq::empty(), rest.drop_first()))
                =~= parts_view(v@) + pieces_after(Seq::empty(), rest.drop_first()));
        } else {
            current.push(s[i]);
        }
        i = i + 1;
    }
    let ghost before = parts_view(v@);
    v.push(current);
    assert(parts_view(v@) =~= before + seq![current@]);
    v
}

/// The components of a path but for the root.
pub fn path_components(s: &[u8]) -> (v: Vec<Vec<u8>>)
    ensures
        parts_view(v@) == components(s@),
{
    let pieces: Vec<Vec<u8>> = split(s);
    let ghost all = parts_view(pieces@);
    let mut v: Vec<Vec<u8>> = Vec::new();
    let mut i: usize = 0;
    assert(all.subrange(0, 0) =~= Seq::empty());
    assert(parts_view(v@) =~= Seq::empty());
    while i < pieces.len()
        invariant
            i <= pieces@.len(),
            all == parts_view(pieces@),
            parts_view(v@) == counting(all.subrange(0, i as int)),
        decreases pieces@.len() - i,
    {
        let ghost before = parts_view(v@);
        let ghost next = all.subrange(0, i + 1);
        assert(next.drop_last() =~= all.subrange(0, i as int));
        assert(next.last() == pieces@[i as int]@);
        let p: &Vec<u8> = &pieces[i];
        if p.len() != 0 && !(p.len() == 1 && p[0] == DOT && i > 0) {
            let copy: Vec<u8> = crate::archive::wire::copy_range(p, 0, p.len());
            assert(copy@ =~= p@);
            v.push(copy);
            assert(parts_view(v@) =~= before.push(next.last()));
        }
        i = i + 1;
    }
    assert(all.subrange(0, i as int) =~= all);
    v
}

/// The plain form of a path.
pub fn plain_path(s: &[u8]) -> (p: Vec<u8>)
    ensures
        p@ == plain(s@),
{
    let parts: Vec<Vec<u8>> = path_components(s);
    let ghost all = parts_view(parts@);
    let mut p: Vec<u8> = Vec::new();
    if s.len() > 0 && s[0] == SLASH {
        p.push(SLASH);
    }
    let ghost root = p@;
    let mut i: usize = 0;
    assert(all.subrange(0, 0) =~= Seq::empty());
    assert(root + slashed(Seq::empty()) =~= root);
    while i < parts.len()
        invariant
            i <= parts@.len(),
            all == parts_view(parts@),
            p@ == root + slashed(all.subrange(0, i as int)),
        decreases parts@.len() - i,
    {
        let ghost before = p@;
        let ghost done = all.subrange(0, i as int);
        let ghost next = all.subrange(0, i + 1);
        assert(next.drop_last() =~= done);
        assert(next.last() == parts@[i as int]@);
        if i > 0 {
            p.push(SLASH);
        }
        p.extend_from_slice(&parts[i]);
        assert(p@ =~= root + slashed(next));
        i = i + 1;
    }
    assert(all.subrange(0, i as int) =~= all);
    assert(absolute(s@) ==> root =~= seq![SLASH]);
    assert(!absolute(s@) ==> root + slashed(all) =~= slashed(all));
    p
}

/// `name` below `parent`.
pub fn join_path(parent: &[u8], name: &[u8]) -> (p: Vec<u8>)
    ensures
        p@ == joined(parent@, name@),
{
    let mut p: Vec<u8> = Vec::new();
    if !(name.len() > 0 && name[0] == SLASH) {
        p.extend_from_slice(parent);
        assert(p@ =~= parent@);
        if parent.len() > 0 && parent[parent.len() - 1] != SLASH {
            p.push(SLASH);
        }
    }
    let ghost before = p@;
    p.extend_from_slice(name);
    assert(p@ =~= before + name@);
    assert(p@ =~= joined(parent@, name@));
    p
}

/// Whether a recorded relative path stays below the directory it is relative to: it is not empty,
/// does not start at the root, and none of its components is a dot or two dots.
pub open spec fn safe_rel(s: Seq<u8>) -> bool {
    &&& s.len() > 0
    &&& !absolute(s)
    &&& forall|i: int|
        0 <= i < components(s).len() ==> !is_dot(#[trigger] components(s)[i]) && !is_dot_dot(
            components(s)[i],
        )
}

/// Whether a recorded relative path stays below the directory it is relative to.
pub fn is_safe_rel(rel: &str) -> (b: bool)
    ensures
        b == safe_rel(crate::text::utf8(rel@)),
{
    proof {
        reveal(crate::text::utf8);
    }
    let s: &[u8] = rel.as_bytes();
    if s.len() == 0 || s[0] == SLASH {
        return false;
    }
    let parts: Vec<Vec<u8>> = path_components(s);
    let ghost all = parts_view(parts@);
    let mut i: usize = 0;
    while i < parts.len()
        invariant
            i <= parts@.len(),
            all == parts_view(parts@),
            all == components(s@),
            s@ == crate::text::utf8(rel@),
            forall|j: int| 0 <= j < i ==> !is_dot(#[trigger] all[j]) && !is_dot_dot(all[j]),
        decreases parts@.len() - i,
    {
        let p: &Vec<u8> = &parts[i];
        assert(p@ == all[i as int]);
        if (p.len() == 1 && p[0] == DOT) || (p.len() == 2 && p[0] == DOT && p[1] == DOT) {
            return false;
        }
        i = i + 1;
    }
    true
}

proof fn pieces_are_not_none(current: Seq<u8>, s: Seq<u8>)
    ensures
        pieces_after(current, s).len() > 0,
        pieces_after(current, s)[0].len() >= current.len(),
    decreases s.len(),
{
    if s.len() > 0 {
        if s[0] == SLASH {
            pieces_are_not_none(Seq::empty(), s.drop_first());
        } else {
            pieces_are_not_none(current.push(s[0]), s.drop_first());
        }
    }
}

proof fn slashed_first(p: Seq<u8>, rest: Seq<Seq<u8>>)
    requires
        rest.len() > 0,
    ensures
        slashed(seq![p] + rest) == p.push(SLASH) + slashed(rest),
    decreases rest.len(),
{
    let all = seq![p] + rest;
    if rest.len() == 1 {
        assert(all.drop_last() =~= seq![p]);
        assert(slashed(seq![p]) == p);
        assert(all.last() == rest[0]);
    } else {
        slashed_first(p, rest.drop_last());
        assert(all.drop_last() =~= seq![p] + rest.drop_last());
        assert(slashed(all) =~= p.push(SLASH) + slashed(rest));
    }
}

proof fn pieces_make_up(current: Seq<u8>, s: Seq<u8>)
    requires
        forall|k: int| 0 <= k < current.len() ==> #[trigger] current[k] != 47,
    ensures
        slashed(pieces_after(current, s)) == current + s,
        forall|i: int, k: int|
            0 <= i < pieces_after(current, s).len() && 0 <= k < pieces_after(current, s)[i].len()
                ==> #[trigger] pieces_after(current, s)[i][k] != 47,
    decreases s.len(),
{
    if s.len() == 0 {
        assert(current + s =~= current);
    } else if s[0] == SLASH {
        let rest = pieces_after(Seq::empty(), s.drop_first());
        pieces_make_up(Seq::empty(), s.drop_first());
        pieces_are_not_none(Seq::empty(), s.drop_first());
        slashed_first(current, rest);
        assert(Seq::<u8>::empty() + s.drop_first() =~= s.drop_first());
        assert(current.push(SLASH) + s.drop_first() =~= current + s);
        let all = pieces_after(current, s);
        assert forall|i: int, k: int| 0 <= i < all.len() && 0 <= k < all[i].len() implies
            #[trigger] all[i][k] != 47 by {
            if i > 0 {
                assert(all[i] == rest[i - 1]);
                assert(rest[i - 1][k] != 47);
            }
        }
    } else {
        pieces_make_up(current.push(s[0]), s.drop_first());
        assert(current.push(s[0]) + s.drop_first() =~= current + s);
    }
}

/// The pieces of a path, with slashes between them, make up the path, and none holds a slash.
pub proof fn pieces_make_up_the_path(s: Seq<u8>)
    ensures
        slashed(pieces_after(Seq::empty(), s)) == s,
        forall|i: int, k: int|
            0 <= i < pieces_after(Seq::empty(), s).len() && 0 <= k < pieces_after(
                Seq::empty(),
                s,
            )[i].len() ==> #[trigger] pieces_after(Seq::empty(), s)[i][k] != 47,
{
    pieces_make_up(Seq::empty(), s);
    assert(Seq::<u8>::empty() + s =~= s);
}

proof fn counting_is_exact(pieces: Seq<Seq<u8>>, x: Seq<u8>)
    ensures
        counting(pieces).contains(x) ==> pieces.contains(x) && x.len() > 0,
        pieces.contains(x) && x.len() > 0 && !(x.len() == 1 && x[0] == 46) ==> counting(
            pieces,
        ).contains(x),
    decreases pieces.len(),
{
    if pieces.len() > 0 {
        let head = pieces.drop_last();
        let p = pieces.last();
        let rest = counting(head);
        let all = counting(pieces);
        counting_is_exact(head, x);
        if all.contains(x) {
            let k = choose|k: int| 0 <= k < all.len() && all[k] == x;
            if k < rest.len() {
                assert(rest[k] == x);
                let j = choose|j: int| 0 <= j < head.len() && head[j] == x;
                assert(pieces[j] == x);
            } else {
                assert(pieces[pieces.len() - 1] == x);
            }
        }
        if pieces.contains(x) && x.len() > 0 && !(x.len() == 1 && x[0] == 46) {
            let j = choose|j: int| 0 <= j < pieces.len() && pieces[j] == x;
            if j < head.len() {
                assert(head[j] == x);
                let k = choose|k: int| 0 <= k < rest.len() && rest[k] == x;
                assert(all[k] == x);
            } else {
                assert(all[rest.len() as int] == x);
            }
        }
    }
}

/// What counts of a path are the pieces that hold something; all but single dots do.
pub proof fn components_are_the_pieces_that_count(s: Seq<u8>, x: Seq<u8>)
    ensures
        components(s).contains(x) ==> pieces_after(Seq::empty(), s).contains(x) && x.len() > 0,
        pieces_after(Seq::empty(), s).contains(x) && x.len() > 0 && !(x.len() == 1 && x[0] == 46)
            ==> components(s).contains(x),
{
    counting_is_exact(pieces_after(Seq::empty(), s), x);
}

proof fn slash_at_the_end(current: Seq<u8>, s: Seq<u8>)
    ensures
        pieces_after(current, s.push(47)) == pieces_after(current, s).push(Seq::empty()),
    decreases s.len(),
{
    let t = s.push(47);
    if s.len() == 0 {
        let none = Seq::<u8>::empty();
        assert(t.drop_first() =~= none);
        assert(pieces_after(none, none) =~= seq![none]);
        assert(t[0] == SLASH);
        assert(pieces_after(current, t) == seq![current] + pieces_after(none, t.drop_first()));
        assert(pieces_after(current, s) =~= seq![current]);
        assert(pieces_after(current, t) =~= seq![current].push(none));
    } else {
        assert(t[0] == s[0]);
        assert(t.drop_first() =~= s.drop_first().push(47));
        if s[0] == SLASH {
            slash_at_the_end(Seq::empty(), s.drop_first());
            assert(pieces_after(current, t) =~= pieces_after(current, s).push(Seq::empty()));
        } else {
            slash_at_the_end(current.push(s[0]), s.drop_first());
        }
    }
}

/// A slash at the end of a path makes no difference.
pub proof fn slash_at_the_end_makes_no_difference(s: Seq<u8>)
    requires
        s.len() > 0,
    ensures
        plain(s.push(47)) == plain(s),
{
    slash_at_the_end(Seq::empty(), s);
    let pieces = pieces_after(Seq::empty(), s);
    assert(pieces.push(Seq::empty()).drop_last() =~= pieces);
    assert(components(s.push(47)) == components(s));
}

/// A name below a directory is the directory's path, a slash where there is none, and the name; one
/// that starts at the root stands for itself.
pub proof fn name_stands_below_its_directory(parent: Seq<u8>, name: Seq<u8>)
    ensures
        ({
            let p = joined(parent, name);
            &&& name.len() > 0 && name[0] == 47 ==> p == name
            &&& !(name.len() > 0 && name[0] == 47) ==> {
                &&& p.len() >= parent.len() + name.len()
                &&& p.subrange(0, parent.len() as int) == parent
                &&& p.subrange(p.len() - name.len(), p.len() as int) == name
                &&& parent.len() > 0 ==> p[p.len() - name.len() - 1] == 47
                &&& p.len() <= parent.len() + name.len() + 1
                &&& parent.len() == 0 ==> p == name
            }
        }),
{
    let p = joined(parent, name);
    if !(name.len() > 0 && name[0] == 47) {
        assert(p.subrange(0, parent.len() as int) =~= parent);
        assert(p.subrange(p.len() - name.len(), p.len() as int) =~= name);
        if parent.len() == 0 {
            assert(p =~= name);
        }
    }
}

/// A path that is kept to its directory starts neither at the root nor goes up anywhere; and a path
/// that does neither, and names no directory by a dot, is kept to it.
pub proof fn safe_path_never_goes_up(s: Seq<u8>)
    ensures
        safe_rel(s) ==> s.len() > 0 && s[0] != 47 && !pieces_after(Seq::empty(), s).contains(
            seq![46u8, 46u8],
        ),
        s.len() > 0 && s[0] != 47 && !pieces_after(Seq::empty(), s).contains(seq![46u8, 46u8])
            && !pieces_after(Seq::empty(), s).contains(seq![46u8]) ==> safe_rel(s),
{
    let up = seq![46u8, 46u8];
    let here = seq![46u8];
    components_are_the_pieces_that_count(s, up);
    if safe_rel(s) && pieces_after(Seq::empty(), s).contains(up) {
        let i = choose|i: int| 0 <= i < components(s).len() && components(s)[i] == up;
        assert(is_dot_dot(components(s)[i]));
    }
    if s.len() > 0 && s[0] != 47 && !pieces_after(Seq::empty(), s).contains(up) && !pieces_after(
        Seq::empty(),
        s,
    ).contains(here) {
        assert forall|i: int| 0 <= i < components(s).len() implies !is_dot(
            #[trigger] components(s)[i],
        ) && !is_dot_dot(components(s)[i]) by {
            let x = components(s)[i];
            components_are_the_pieces_that_count(s, x);
            assert(components(s).contains(x));
            if is_dot(x) {
                assert(x =~= here);
            }
            if is_dot_dot(x) {
                assert(x =~= up);
            }
        }
    }
}

proof fn piece_without_slash(current: Seq<u8>, name: Seq<u8>)
    requires
        !name.contains(47),
    ensures
        pieces_after(current, name) == seq![current + name],
    decreases name.len(),
{
    if name.len() == 0 {
        assert(current + name =~= current);
    } else {
        assert(name.contains(name[0]));
        let rest = name.drop_first();
        assert forall|i: int| 0 <= i < rest.len() implies rest[i] != 47 by {
            assert(name.contains(name[i + 1]));
        }
        piece_without_slash(current.push(name[0]), rest);
        assert(current.push(name[0]) + rest =~= current + name);
    }
}

proof fn name_behind(current: Seq<u8>, s: Seq<u8>, name: Seq<u8>)
    requires
        !name.contains(47),
    ensures
        pieces_after(current, s.push(47) + name) == pieces_after(current, s).push(name),
    decreases s.len(),
{
    let t = s.push(47) + name;
    if s.len() == 0 {
        let none = Seq::<u8>::empty();
        assert(t.drop_first() =~= name);
        assert(t[0] == SLASH);
        piece_without_slash(none, name);
        assert(none + name =~= name);
        assert(pieces_after(current, t) == seq![current] + pieces_after(none, t.drop_first()));
        assert(pieces_after(current, s) =~= seq![current]);
        assert(pieces_after(current, t) =~= seq![current].push(name));
    } else {
        assert(t[0] == s[0]);
        assert(t.drop_first() =~= s.drop_first().push(47) + name);
        if s[0] == SLASH {
            name_behind(Seq::empty(), s.drop_first(), name);
            assert(pieces_after(current, t) =~= pieces_after(current, s).push(name));
        } else {
            name_behind(current.push(s[0]), s.drop_first(), name);
        }
    }
}

/// A name alone is a path of one component; behind a path and a slash it is one component more, and
/// written plainly stands behind a slash. A dot behind a path, or nothing, is none.
pub proof fn name_behind_a_path_is_one_component_more(s: Seq<u8>, name: Seq<u8>)
    requires
        s.len() > 0,
        !name.contains(47),
    ensures
        name.len() == 0 ==> components(name).len() == 0 && plain(name).len() == 0,
        name.len() > 0 ==> components(name) == seq![name] && plain(name) == name,
        ({
            let longer = s.push(47) + name;
            let none = name.len() == 0 || name == seq![46u8];
            &&& none ==> components(longer) == components(s) && plain(longer) == plain(s)
            &&& !none ==> components(longer) == components(s).push(name)
            &&& !none && components(s).len() > 0 ==> plain(longer) == plain(s).push(47) + name
            &&& !none && components(s).len() == 0 ==> plain(longer) == seq![47u8] + name
        }),
{
    let empty = Seq::<u8>::empty();
    piece_without_slash(empty, name);
    assert(empty + name =~= name);
    let one = seq![name];
    assert(one.drop_last() =~= Seq::<Seq<u8>>::empty());
    assert(counting(one.drop_last()) =~= Seq::<Seq<u8>>::empty());
    if name.len() > 0 {
        assert(components(name) =~= seq![name]);
        assert(name.contains(name[0]));
        assert(slashed(seq![name]) == name);
    }
    name_behind(empty, s, name);
    pieces_are_not_none(empty, s);
    let pieces = pieces_after(empty, s);
    let more = pieces.push(name);
    let longer = s.push(47) + name;
    assert(more.drop_last() =~= pieces);
    assert(components(longer) == counting(more));
    assert(absolute(longer) == absolute(s));
    if is_dot(name) {
        assert(name =~= seq![46u8]);
    }
    if !(name.len() == 0 || name == seq![46u8]) {
        let c = components(s);
        assert(components(longer) == c.push(name));
        assert(c.push(name).drop_last() =~= c);
        if c.len() == 0 {
            assert(c.push(name) =~= seq![name]);
            assert(slashed(seq![name]) == name);
            nothing_but_slashes(s);
        } else {
            assert(slashed(c.push(name)) == slashed(c).push(SLASH) + name);
            assert(plain(longer) =~= plain(s).push(47) + name);
        }
    }
}

proof fn nothing_but_slashes(s: Seq<u8>)
    requires
        s.len() > 0,
        components(s).len() == 0,
    ensures
        absolute(s),
{
    let pieces = pieces_after(Seq::empty(), s);
    pieces_are_not_none(Seq::empty(), s);
    if s[0] != SLASH {
        let first = Seq::<u8>::empty().push(s[0]);
        pieces_are_not_none(first, s.drop_first());
        first_piece_counts(pieces);
    }
}

proof fn first_piece_counts(pieces: Seq<Seq<u8>>)
    requires
        pieces.len() > 0,
        pieces[0].len() > 0,
    ensures
        counting(pieces).len() > 0,
        counting(pieces)[0] == pieces[0],
    decreases pieces.len(),
{
    if pieces.len() > 1 {
        assert(pieces.drop_last()[0] == pieces[0]);
        first_piece_counts(pieces.drop_last());
    } else {
        assert(pieces.drop_last() =~= Seq::<Seq<u8>>::empty());
        assert(counting(pieces.drop_last()) =~= Seq::<Seq<u8>>::empty());
    }
}

proof fn only_a_first_dot_counts(pieces: Seq<Seq<u8>>)
    ensures
        counting(pieces).contains(seq![46u8]) <==> pieces.len() > 0 && pieces[0] == seq![46u8],
    decreases pieces.len(),
{
    let here = seq![46u8];
    if pieces.len() > 0 {
        let head = pieces.drop_last();
        let p = pieces.last();
        let rest = counting(head);
        only_a_first_dot_counts(head);
        if pieces[0] == here {
            first_piece_counts(pieces);
            assert(counting(pieces)[0] == here);
        } else if counting(pieces).contains(here) {
            let k = choose|k: int| 0 <= k < counting(pieces).len() && counting(pieces)[k] == here;
            if k < rest.len() {
                assert(rest[k] == here);
                assert(head[0] == pieces[0]);
            } else {
                assert(p == here);
                assert(is_dot(p));
            }
        }
    }
}

/// A path is kept to its directory exactly where it is one, starts neither at the root nor at a dot,
/// and goes up nowhere.
pub proof fn safe_path_is_told_by_its_pieces(s: Seq<u8>)
    ensures
        safe_rel(s) <==> s.len() > 0 && s[0] != 47 && pieces_after(Seq::empty(), s)[0] != seq![46u8]
            && !pieces_after(Seq::empty(), s).contains(seq![46u8, 46u8]),
{
    let up = seq![46u8, 46u8];
    let here = seq![46u8];
    let pieces = pieces_after(Seq::empty(), s);
    let c = components(s);
    pieces_are_not_none(Seq::empty(), s);
    only_a_first_dot_counts(pieces);
    components_are_the_pieces_that_count(s, up);
    if safe_rel(s) {
        if pieces.contains(up) {
            let i = choose|i: int| 0 <= i < c.len() && c[i] == up;
            assert(is_dot_dot(c[i]));
        }
        if pieces[0] == here {
            let i = choose|i: int| 0 <= i < c.len() && c[i] == here;
            assert(is_dot(c[i]));
        }
    } else if s.len() > 0 && s[0] != 47 {
        let i = choose|i: int|
            0 <= i < c.len() && (is_dot(#[trigger] c[i]) || is_dot_dot(c[i]));
        assert(c.contains(c[i]));
        if is_dot(c[i]) {
            assert(c[i] =~= here);
        } else {
            assert(c[i] =~= up);
        }
    }
}

} // verus!
