//! The last check before a mount: what lies below the mount point must not be covered silently.
use vstd::prelude::*;
use vstd::string::*;

use crate::text;

verus! {

/// Whether a name starts with those bytes.
pub open spec fn starts_with(name: Seq<u8>, prefix: Seq<u8>) -> bool {
    prefix.len() <= name.len() && name.subrange(0, prefix.len() as int) == prefix
}

/// Whether a name ends with those bytes.
pub open spec fn ends_with(name: Seq<u8>, suffix: Seq<u8>) -> bool {
    suffix.len() <= name.len() && name.subrange(name.len() - suffix.len(), name.len() as int)
        == suffix
}

/// Whether an entry of that name is no write that fell through: a placeholder of a deleted file,
/// directory metadata, or an editor's swap or backup file.
pub open spec fn harmless(name: Seq<u8>) -> bool {
    ||| starts_with(name, text::utf8(".fuse_hidden"@))
    ||| name == text::utf8(".DS_Store"@)
    ||| starts_with(name, text::utf8("."@)) && (ends_with(name, text::utf8(".swp"@)) || ends_with(
        name,
        text::utf8(".swx"@),
    ) || ends_with(name, text::utf8("~"@)))
}

/// Whether the bytes stand in `name` from `at` on.
fn stands_at(name: &[u8], at: usize, part: &[u8]) -> (b: bool)
    requires
        at + part@.len() <= name@.len(),
    ensures
        b == (name@.subrange(at as int, at + part@.len()) == part@),
{
    let mut i: usize = 0;
    while i < part.len()
        invariant
            i <= part@.len(),
            at + part@.len() <= name@.len(),
            forall|j: int| 0 <= j < i ==> name@[at + j] == #[trigger] part@[j],
        decreases part@.len() - i,
    {
        let len: usize = name.len();
        assert(at + i < len);
        if name[at + i] != part[i] {
            assert(name@.subrange(at as int, at + part@.len())[i as int] != part@[i as int]);
            return false;
        }
        i = i + 1;
    }
    assert(name@.subrange(at as int, at + part@.len()) =~= part@);
    true
}

fn begins(name: &[u8], prefix: &str) -> (b: bool)
    ensures
        b == starts_with(name@, text::utf8(prefix@)),
{
    proof {
        reveal(text::utf8);
    }
    let p: &[u8] = prefix.as_bytes();
    p.len() <= name.len() && stands_at(name, 0, p)
}

fn ends(name: &[u8], suffix: &str) -> (b: bool)
    ensures
        b == ends_with(name@, text::utf8(suffix@)),
{
    proof {
        reveal(text::utf8);
    }
    let s: &[u8] = suffix.as_bytes();
    s.len() <= name.len() && stands_at(name, name.len() - s.len(), s)
}

fn equals(name: &[u8], other: &str) -> (b: bool)
    ensures
        b == (name@ == text::utf8(other@)),
{
    proof {
        reveal(text::utf8);
    }
    crate::archive::wire::same_bytes(name, other.as_bytes())
}

/// Whether an entry of that name is no write that fell through.
pub fn is_harmless(name: &[u8]) -> (b: bool)
    ensures
        b == harmless(name@),
{
    begins(name, ".fuse_hidden") || equals(name, ".DS_Store") || (begins(name, ".") && (ends(
        name,
        ".swp",
    ) || ends(name, ".swx") || ends(name, "~")))
}

/// Whether one of the names is that of a write that fell through.
pub open spec fn fell_through(names: Seq<Vec<u8>>) -> bool {
    exists|i: int| 0 <= i < names.len() && !harmless((#[trigger] names[i])@)
}

/// Whether a listing holds a write that fell through; there is no listing of a mount point that
/// does not exist.
pub open spec fn listing_fell_through(listing: Option<&Vec<Vec<u8>>>) -> bool {
    match listing {
        Some(names) => fell_through(names@),
        None => false,
    }
}

/// Whether the mount point holds writes that fell through. `listing` is what it holds, and
/// nothing where it does not exist.
pub fn underlay_has_fallthrough(listing: Option<&Vec<Vec<u8>>>) -> (b: bool)
    ensures
        b == listing_fell_through(listing),
{
    let names: &Vec<Vec<u8>> = match listing {
        Some(names) => names,
        None => {
            return false;
        },
    };
    let mut i: usize = 0;
    while i < names.len()
        invariant
            i <= names@.len(),
            listing == Some(names),
            forall|j: int| 0 <= j < i ==> harmless((#[trigger] names@[j])@),
        decreases names@.len() - i,
    {
        if !is_harmless(&names[i]) {
            assert(!harmless(names@[i as int]@));
            assert(fell_through(names@));
            return true;
        }
        i = i + 1;
    }
    false
}

/// Why a mount point that holds writes is refused.
pub open spec fn covered_message(mp: Seq<char>) -> Seq<char> {
    mp
        + " 挂载点 underlay 含停用期回落写，拒绝挂载（防静默盖住）；先 `scrollz enable reconcile` 重合并"@
}

/// Why a mount point that is being reconciled is refused.
pub open spec fn reconciling_message(mp: Seq<char>, marker: Seq<char>) -> Seq<char> {
    mp + " 正在 reconcile/undo（"@ + marker + " 在），拒绝挂载（防挂到半改写 backing）"@
}

/// Refuses a mount that would cover writes that fell through.
pub fn ensure_underlay_empty(mp: &str, listing: Option<&Vec<Vec<u8>>>) -> (r: Result<(), String>)
    ensures
        match r {
            Ok(_) => !listing_fell_through(listing),
            Err(e) => listing_fell_through(listing) && e@ == covered_message(mp@),
        },
{
    if underlay_has_fallthrough(listing) {
        let mut e: String = text::copy_str(mp);
        e.append(
            " 挂载点 underlay 含停用期回落写，拒绝挂载（防静默盖住）；先 `scrollz enable reconcile` 重合并",
        );
        assert(e@ =~= covered_message(mp@));
        return Err(e);
    }
    Ok(())
}

/// Refuses a mount while a reconciliation or its undoing is under way, and one that would cover
/// writes that fell through. The marker of a reconciliation goes first.
pub fn ensure_mountable(
    marker_exists: bool,
    marker: &str,
    mp: &str,
    listing: Option<&Vec<Vec<u8>>>,
) -> (r: Result<(), String>)
    ensures
        match r {
            Ok(_) => !marker_exists && !listing_fell_through(listing),
            Err(e) => if marker_exists {
                e@ == reconciling_message(mp@, marker@)
            } else {
                listing_fell_through(listing) && e@ == covered_message(mp@)
            },
        },
{
    if marker_exists {
        let mut e: String = text::copy_str(mp);
        e.append(" 正在 reconcile/undo（");
        e.append(marker);
        e.append(" 在），拒绝挂载（防挂到半改写 backing）");
        assert(e@ =~= reconciling_message(mp@, marker@));
        return Err(e);
    }
    ensure_underlay_empty(mp, listing)
}

/// Only a name that starts with a dot is harmless; every other one is that of a write that fell
/// through. Of those that do, an editor's files, the metadata of directories and the placeholders of
/// deleted files are.
pub proof fn name_without_a_dot_is_a_write(name: Seq<u8>)
    ensures
        name.len() == 0 || name[0] != 46 ==> !harmless(name),
        name.len() > 0 && name[0] == 46 && name.last() == 126 ==> harmless(name),
        name == text::utf8(".DS_Store"@) ==> harmless(name),
        starts_with(name, text::utf8(".fuse_hidden"@)) ==> harmless(name),
        harmless(name) ==> name == text::utf8(".DS_Store"@) || starts_with(
            name,
            text::utf8(".fuse_hidden"@),
        ) || name.last() == 126 || ends_with(name, text::utf8(".swp"@)) || ends_with(
            name,
            text::utf8(".swx"@),
        ),
{
    reveal_strlit(".fuse_hidden");
    reveal_strlit(".DS_Store");
    reveal_strlit(".");
    reveal_strlit("~");
    text::ascii_is_its_own_bytes(".fuse_hidden"@);
    text::ascii_is_its_own_bytes(".DS_Store"@);
    text::ascii_is_its_own_bytes("."@);
    text::ascii_is_its_own_bytes("~"@);
    let (hidden, meta, dot, tilde) = (
        text::utf8(".fuse_hidden"@),
        text::utf8(".DS_Store"@),
        text::utf8("."@),
        text::utf8("~"@),
    );
    assert(hidden[0] == '.' as u8 && meta[0] == '.' as u8 && dot[0] == '.' as u8);
    assert('.' as u8 == 46 && '~' as u8 == 126);
    assert(".fuse_hidden"@[0] == '.' && ".DS_Store"@[0] == '.' && "."@[0] == '.' && "~"@[0] == '~');
    if starts_with(name, hidden) {
        assert(name.subrange(0, hidden.len() as int)[0] == name[0]);
    }
    if starts_with(name, dot) {
        assert(name.subrange(0, dot.len() as int)[0] == name[0]);
    }
    if ends_with(name, tilde) {
        assert(name.subrange(name.len() - 1, name.len() as int)[0] == name.last());
        assert(tilde[0] == '~' as u8);
    }
    if name.len() > 0 && name[0] == 46 && name.last() == 126 {
        assert(name.subrange(0, 1) =~= dot);
        assert(name.subrange(name.len() - 1, name.len() as int) =~= tilde);
    }
}

/// A mount point holds a write that fell through where one of its names is not harmless; one that
/// does not exist, or holds nothing, has none.
pub proof fn one_write_is_enough(names: Seq<Vec<u8>>, i: int)
    ensures
        0 <= i < names.len() && !harmless(names[i]@) ==> fell_through(names),
        names.len() == 0 ==> !fell_through(names),
        (forall|k: int| 0 <= k < names.len() ==> harmless((#[trigger] names[k])@)) ==> !fell_through(
            names,
        ),
        !listing_fell_through(None),
{
}

/// A refusal to mount names the mount point, and the marker where there is one; the two refusals
/// differ.
pub proof fn refusal_names_the_mount_point(mp: Seq<char>, marker: Seq<char>)
    ensures
        text::stands_in(covered_message(mp), mp),
        text::stands_in(reconciling_message(mp, marker), mp),
        text::stands_in(reconciling_message(mp, marker), marker),
{
    let none = Seq::<char>::empty();
    let why = " 挂载点 underlay 含停用期回落写，拒绝挂载（防静默盖住）；先 `scrollz enable reconcile` 重合并"@;
    text::part_stands_in(none, mp, why);
    assert(none + mp + why =~= covered_message(mp));
    let end = " 在），拒绝挂载（防挂到半改写 backing）"@;
    text::part_stands_in(none, mp, " 正在 reconcile/undo（"@ + marker + end);
    assert(none + mp + (" 正在 reconcile/undo（"@ + marker + end) =~= reconciling_message(
        mp,
        marker,
    ));
    text::part_stands_in(mp + " 正在 reconcile/undo（"@, marker, end);
}

/// A hidden file of an editor is harmless, whatever stands between the dot and its ending; and a name
/// starts and ends with what stands at its ends.
pub proof fn hidden_editor_files_are_harmless(middle: Seq<u8>, name: Seq<u8>, end: Seq<u8>)
    ensures
        harmless(seq![46u8] + middle + text::utf8(".swp"@)),
        harmless(seq![46u8] + middle + text::utf8(".swx"@)),
        harmless(seq![46u8] + middle + seq![126u8]),
        harmless(text::utf8(".fuse_hidden"@) + middle),
        starts_with(end + name, end),
        ends_with(name + end, end),
        name.len() < end.len() ==> !starts_with(name, end) && !ends_with(name, end),
{
    reveal_strlit(".");
    reveal_strlit("~");
    text::ascii_is_its_own_bytes("."@);
    text::ascii_is_its_own_bytes("~"@);
    assert(text::utf8("."@) =~= seq![46u8]);
    assert(text::utf8("~"@) =~= seq![126u8]);
    assert((end + name).subrange(0, end.len() as int) =~= end);
    assert((name + end).subrange(name.len() as int, (name + end).len() as int) =~= end);
    let swp = text::utf8(".swp"@);
    let swx = text::utf8(".swx"@);
    let tilde = seq![126u8];
    let a = seq![46u8] + middle + swp;
    let b = seq![46u8] + middle + swx;
    let c = seq![46u8] + middle + tilde;
    assert(a.subrange(0, 1) =~= seq![46u8]);
    assert(b.subrange(0, 1) =~= seq![46u8]);
    assert(c.subrange(0, 1) =~= seq![46u8]);
    assert(a.subrange(a.len() - swp.len(), a.len() as int) =~= swp);
    assert(b.subrange(b.len() - swx.len(), b.len() as int) =~= swx);
    assert(c.subrange(c.len() - 1, c.len() as int) =~= tilde);
    let hidden = text::utf8(".fuse_hidden"@);
    assert((hidden + middle).subrange(0, hidden.len() as int) =~= hidden);
}

/// A listing that could be had holds a write where one of its names is no harmless one.
pub proof fn listing_is_judged_by_its_names(names: Vec<Vec<u8>>)
    ensures
        listing_fell_through(Some(&names)) <==> exists|i: int|
            0 <= i < names@.len() && !harmless((#[trigger] names@[i])@),
{
}

} // verus!
