//! Text: lines, blankness, order by bytes, decimal numbers.
use vstd::prelude::*;
use vstd::string::*;

verus! {

/// `String::push` appends one character.
pub assume_specification[ String::push ](s: &mut String, c: char)
    ensures
        final(s)@ == old(s)@.push(c),
;

/// Whether `c` has Unicode's White_Space property.
pub open spec fn white(c: char) -> bool {
    ||| '\u{9}' <= c <= '\u{d}'
    ||| c == '\u{20}'
    ||| c == '\u{85}'
    ||| c == '\u{a0}'
    ||| c == '\u{1680}'
    ||| '\u{2000}' <= c <= '\u{200a}'
    ||| c == '\u{2028}'
    ||| c == '\u{2029}'
    ||| c == '\u{202f}'
    ||| c == '\u{205f}'
    ||| c == '\u{3000}'
}

/// Whether `c` has Unicode's White_Space property.
pub fn is_white(c: char) -> (b: bool)
    ensures
        b == white(c),
{
    ('\u{9}' <= c && c <= '\u{d}') || c == '\u{20}' || c == '\u{85}' || c == '\u{a0}' || c
        == '\u{1680}' || ('\u{2000}' <= c && c <= '\u{200a}') || c == '\u{2028}' || c == '\u{2029}'
        || c == '\u{202f}' || c == '\u{205f}' || c == '\u{3000}'
}

/// Whether `s` holds nothing but white space.
pub open spec fn blank(s: Seq<char>) -> bool {
    forall|i: int| 0 <= i < s.len() ==> white(#[trigger] s[i])
}

/// Whether `s` holds nothing but white space.
pub fn is_blank(s: &str) -> (b: bool)
    ensures
        b == blank(s@),
{
    let mut all: bool = true;
    for c in it: s.chars()
        invariant
            it.seq() == s@,
            all == (forall|i: int| 0 <= i < it.index() ==> white(#[trigger] s@[i])),
    {
        let w: bool = is_white(c);
        all = all && w;
    }
    all
}

/// A line without the carriage return before its line feed.
pub open spec fn without_cr(line: Seq<char>) -> Seq<char> {
    if line.len() > 0 && line.last() == '\r' {
        line.drop_last()
    } else {
        line
    }
}

/// The lines of `s` where `current` was read of the first one already.
pub open spec fn lines_after(current: Seq<char>, s: Seq<char>) -> Seq<Seq<char>>
    decreases s.len(),
{
    if s.len() == 0 {
        if current.len() == 0 {
            Seq::empty()
        } else {
            seq![current]
        }
    } else if s[0] == '\n' {
        seq![without_cr(current)] + lines_after(Seq::empty(), s.drop_first())
    } else {
        lines_after(current.push(s[0]), s.drop_first())
    }
}

/// The lines of `s`: a line feed ends a line, a carriage return before it is dropped, and a line
/// that is cut off by the end of the text counts unless it is empty.
pub open spec fn lines(s: Seq<char>) -> Seq<Seq<char>> {
    lines_after(Seq::empty(), s)
}

/// A line that a line feed ends is read as one line.
pub proof fn line_is_read(current: Seq<char>, line: Seq<char>, rest: Seq<char>)
    requires
        !line.contains('\n'),
    ensures
        lines_after(current, line + seq!['\n'] + rest) == seq![without_cr(current + line)]
            + lines_after(Seq::empty(), rest),
    decreases line.len(),
{
    let s = line + seq!['\n'] + rest;
    if line.len() == 0 {
        assert(s.drop_first() =~= rest);
        assert(current + line =~= current);
    } else {
        assert(line.contains(line[0]));
        assert(s[0] == line[0]);
        assert forall|i: int| 0 <= i < line.drop_first().len() implies line.drop_first()[i]
            != '\n' by {
            assert(line.contains(line[i + 1]));
        }
        line_is_read(current.push(line[0]), line.drop_first(), rest);
        assert(s.drop_first() =~= line.drop_first() + seq!['\n'] + rest);
        assert(current.push(line[0]) + line.drop_first() =~= current + line);
    }
}

proof fn ended_lines_append_after(current: Seq<char>, before: Seq<char>, line: Seq<char>)
    requires
        before.len() > 0,
        before.last() == '\n',
        !line.contains('\n'),
    ensures
        lines_after(current, before + line + seq!['\n']) == lines_after(current, before).push(
            without_cr(line),
        ),
    decreases before.len(),
{
    let s = before + line + seq!['\n'];
    let tail = before.drop_first();
    assert(s[0] == before[0]);
    assert(s.drop_first() =~= tail + line + seq!['\n']);
    if tail.len() == 0 {
        line_is_read(Seq::empty(), line, Seq::empty());
        assert(s.drop_first() =~= line + seq!['\n'] + Seq::<char>::empty());
        assert(Seq::<char>::empty() + line =~= line);
        assert(before.drop_first() =~= Seq::<char>::empty());
        assert(lines_after(Seq::empty(), before.drop_first()) =~= Seq::<Seq<char>>::empty());
        assert(before[0] == '\n');
        assert(lines_after(current, before) =~= seq![without_cr(current)]);
        assert(seq![without_cr(current)] + (seq![without_cr(line)] + Seq::<Seq<char>>::empty())
            =~= seq![without_cr(current)].push(without_cr(line)));
    } else {
        assert(tail.last() == before.last());
        if before[0] == '\n' {
            ended_lines_append_after(Seq::empty(), tail, line);
            let rest = lines_after(Seq::empty(), tail);
            assert(seq![without_cr(current)] + rest.push(without_cr(line)) =~= (seq![
                without_cr(current),
            ] + rest).push(without_cr(line)));
        } else {
            ended_lines_append_after(current.push(before[0]), tail, line);
        }
    }
}

/// A line behind a text that ends with a line feed is its last line.
pub proof fn ended_lines_append(before: Seq<char>, line: Seq<char>)
    requires
        before.len() > 0,
        before.last() == '\n',
        !line.contains('\n'),
    ensures
        lines(before + line + seq!['\n']) == lines(before).push(without_cr(line)),
{
    ended_lines_append_after(Seq::empty(), before, line);
}

proof fn lines_after_are_lines(current: Seq<char>, s: Seq<char>)
    requires
        !current.contains('\n'),
    ensures
        forall|i: int|
            0 <= i < lines_after(current, s).len() ==> !(#[trigger] lines_after(
                current,
                s,
            )[i]).contains('\n'),
    decreases s.len(),
{
    if s.len() > 0 {
        if s[0] == '\n' {
            lines_after_are_lines(Seq::empty(), s.drop_first());
            let rest = lines_after(Seq::empty(), s.drop_first());
            let all = lines_after(current, s);
            assert forall|i: int| 0 <= i < all.len() implies !(#[trigger] all[i]).contains(
                '\n',
            ) by {
                if i > 0 {
                    assert(all[i] == rest[i - 1]);
                } else if all[0].contains('\n') {
                    let j = choose|j: int| 0 <= j < all[0].len() && all[0][j] == '\n';
                    assert(current[j] == '\n');
                }
            }
        } else {
            let next = current.push(s[0]);
            if next.contains('\n') {
                let j = choose|j: int| 0 <= j < next.len() && next[j] == '\n';
                assert(current[j] == '\n');
            }
            lines_after_are_lines(next, s.drop_first());
            assert(lines_after(current, s) == lines_after(next, s.drop_first()));
        }
    } else if current.len() > 0 {
        assert(lines_after(current, s) =~= seq![current]);
    }
}

/// A line holds no line feed.
pub proof fn lines_are_lines(s: Seq<char>)
    ensures
        forall|i: int| 0 <= i < lines(s).len() ==> !(#[trigger] lines(s)[i]).contains('\n'),
{
    lines_after_are_lines(Seq::empty(), s);
}

/// The text of each string.
pub open spec fn texts(v: Seq<String>) -> Seq<Seq<char>> {
    Seq::new(v.len(), |i: int| v[i]@)
}

/// The lines of `s`.
pub fn split_lines(s: &str) -> (v: Vec<String>)
    ensures
        texts(v@) == lines(s@),
{
    let mut v: Vec<String> = Vec::new();
    let mut current: String = String::new();
    // What was read of the current line but for a trailing carriage return.
    let mut held_cr: bool = false;
    let ghost full = s@;
    assert(full.subrange(0, full.len() as int) =~= full);
    assert(texts(v@) + lines(full) =~= lines(full));
    for c in it: s.chars()
        invariant
            it.seq() == s@,
            full == s@,
            !held_cr && current@.len() > 0 ==> current@.last() != '\r',
            lines(full) == texts(v@) + lines_after(
                if held_cr {
                    current@.push('\r')
                } else {
                    current@
                },
                full.subrange(it.index() as int, full.len() as int),
            ),
    {
        let ghost at = it.index() as int;
        let ghost rest = full.subrange(at, full.len() as int);
        let ghost so_far = if held_cr {
            current@.push('\r')
        } else {
            current@
        };
        let ghost before = texts(v@);
        assert(rest.drop_first() =~= full.subrange(at + 1, full.len() as int));
        if c == '\n' {
            proof {
                if held_cr {
                    assert(so_far.drop_last() =~= current@);
                }
            }
            v.push(current);
            current = String::new();
            held_cr = false;
            assert(texts(v@) =~= before.push(without_cr(so_far)));
            assert(before + (seq![without_cr(so_far)] + lines_after(
                Seq::empty(),
                rest.drop_first(),
            )) =~= texts(v@) + lines_after(Seq::empty(), rest.drop_first()));
        } else {
            if held_cr {
                current.push('\r');
            }
            if c == '\r' {
                held_cr = true;
            } else {
                held_cr = false;
                current.push(c);
            }
        }
    }
    if held_cr {
        current.push('\r');
    }
    let ghost before = texts(v@);
    if !current.as_str().is_empty() {
        v.push(current);
        assert(texts(v@) =~= before + seq![current@]);
    } else {
        assert(before + Seq::empty() =~= before);
    }
    v
}

/// Order of byte strings: by the first byte that differs, the shorter first where one is a
/// prefix of the other.
pub open spec fn bytes_lt(a: Seq<u8>, b: Seq<u8>) -> bool
    decreases a.len(),
{
    if b.len() == 0 {
        false
    } else if a.len() == 0 {
        true
    } else {
        a[0] < b[0] || (a[0] == b[0] && bytes_lt(a.drop_first(), b.drop_first()))
    }
}

/// Two byte strings are equal, or exactly one comes before the other.
pub proof fn bytes_lt_total(a: Seq<u8>, b: Seq<u8>)
    ensures
        !(bytes_lt(a, b) && bytes_lt(b, a)),
        a == b ==> !bytes_lt(a, b),
        a != b ==> bytes_lt(a, b) || bytes_lt(b, a),
    decreases a.len(),
{
    if a.len() > 0 && b.len() > 0 {
        bytes_lt_total(a.drop_first(), b.drop_first());
        if a[0] == b[0] && a.drop_first() == b.drop_first() {
            assert(a =~= seq![a[0]] + a.drop_first());
            assert(b =~= seq![b[0]] + b.drop_first());
        }
    } else if a.len() == 0 && b.len() == 0 {
        assert(a =~= b);
    }
}

/// The order of byte strings is transitive.
pub proof fn bytes_lt_transitive(a: Seq<u8>, b: Seq<u8>, c: Seq<u8>)
    requires
        bytes_lt(a, b),
        bytes_lt(b, c),
    ensures
        bytes_lt(a, c),
    decreases a.len(),
{
    if a.len() > 0 && a[0] == b[0] && b[0] == c[0] {
        bytes_lt_transitive(a.drop_first(), b.drop_first(), c.drop_first());
    }
}

/// Whether `a` comes before `b`.
pub fn bytes_less(a: &[u8], b: &[u8]) -> (less: bool)
    ensures
        less == bytes_lt(a@, b@),
{
    let mut i: usize = 0;
    assert(a@.subrange(0, a@.len() as int) =~= a@);
    assert(b@.subrange(0, b@.len() as int) =~= b@);
    while i < a.len() && i < b.len()
        invariant
            i <= a@.len(),
            i <= b@.len(),
            bytes_lt(a@, b@) == bytes_lt(
                a@.subrange(i as int, a@.len() as int),
                b@.subrange(i as int, b@.len() as int),
            ),
        decreases a@.len() - i,
    {
        if a[i] < b[i] {
            return true;
        }
        if b[i] < a[i] {
            return false;
        }
        assert(a@.subrange(i as int, a@.len() as int).drop_first() =~= a@.subrange(
            i + 1,
            a@.len() as int,
        ));
        assert(b@.subrange(i as int, b@.len() as int).drop_first() =~= b@.subrange(
            i + 1,
            b@.len() as int,
        ));
        i = i + 1;
    }
    i < b.len()
}

/// The UTF-8 bytes of a text.
#[verifier::opaque]
pub open spec fn utf8(s: Seq<char>) -> Seq<u8> {
    vstd::utf8::encode_utf8(s)
}

/// What `String::from_utf8_lossy` reads in some bytes.
pub uninterp spec fn lossy_text(bytes: Seq<u8>) -> Seq<char>;

/// The text of some bytes, by `String::from_utf8_lossy`.
///
/// Trusted: the text depends on the bytes alone, and bytes that are the UTF-8 bytes of a text are
/// read as that text. What stands for bytes that are not UTF-8 is left unsaid.
#[verifier::external_body]
pub(crate) fn from_lossy(bytes: &[u8]) -> (s: String)
    ensures
        s@ == lossy_text(bytes@),
        forall|t: Seq<char>| #[trigger] utf8(t) == bytes@ ==> s@ == t,
{
    String::from_utf8_lossy(bytes).into_owned()
}

/// How `{:?}` shows a text.
pub uninterp spec fn debug_text(s: Seq<char>) -> Seq<char>;

/// A text as `{:?}` shows it, by `<str as Debug>::fmt`.
///
/// Trusted: what is shown depends on the text alone. How quotes and control characters are shown is
/// left unsaid.
#[verifier::external_body]
pub(crate) fn quoted(s: &str) -> (q: String)
    ensures
        q@ == debug_text(s@),
{
    format!("{s:?}")
}

/// The UTF-8 bytes of a text.
pub fn bytes_of(s: &str) -> (v: Vec<u8>)
    ensures
        v@ == utf8(s@),
{
    proof {
        reveal(utf8);
    }
    let b: &[u8] = s.as_bytes();
    let v: Vec<u8> = crate::archive::wire::copy_range(b, 0, b.len());
    assert(v@ =~= b@);
    v
}

/// Order of texts: that of their UTF-8 bytes.
pub open spec fn text_lt(a: Seq<char>, b: Seq<char>) -> bool {
    bytes_lt(utf8(a), utf8(b))
}

/// Texts with the same UTF-8 bytes are the same text.
pub proof fn utf8_injective(a: Seq<char>, b: Seq<char>)
    requires
        utf8(a) == utf8(b),
    ensures
        a == b,
{
    broadcast use vstd::utf8::encode_utf8_decode_utf8;

    reveal(utf8);
    assert(vstd::utf8::decode_utf8(utf8(a)) == a);
    assert(vstd::utf8::decode_utf8(utf8(b)) == b);
}

/// Whether `a` comes before `b`.
pub fn str_less(a: &str, b: &str) -> (less: bool)
    ensures
        less == text_lt(a@, b@),
{
    reveal(utf8);
    bytes_less(a.as_bytes(), b.as_bytes())
}

/// Number of UTF-8 bytes of `s`.
pub fn byte_len(s: &str) -> (n: usize)
    ensures
        n == utf8(s@).len(),
{
    reveal(utf8);
    s.as_bytes().len()
}

/// Whether the two texts are equal.
pub fn same_str(a: &str, b: &str) -> (same: bool)
    ensures
        same == (a@ == b@),
{
    reveal(utf8);
    let same: bool = crate::archive::wire::same_bytes(a.as_bytes(), b.as_bytes());
    proof {
        if same {
            utf8_injective(a@, b@);
        }
    }
    same
}

/// The character of a decimal digit.
pub open spec fn digit(d: int) -> char {
    (48 + d) as char
}

/// The decimal notation of a number.
pub open spec fn decimal(n: nat) -> Seq<char>
    decreases n,
{
    if n < 10 {
        seq![digit(n as int)]
    } else {
        decimal(n / 10).push(digit((n % 10) as int))
    }
}

fn digit_char(d: u8) -> (c: char)
    requires
        d < 10,
    ensures
        c == digit(d as int),
{
    (48 + d) as char
}

/// Appends the decimal notation of a number.
pub fn push_decimal(out: &mut String, n: u64)
    ensures
        final(out)@ == old(out)@ + decimal(n as nat),
    decreases n,
{
    let ghost before = out@;
    if n >= 10 {
        push_decimal(out, n / 10);
    }
    let d: u8 = (n % 10) as u8;
    out.push(digit_char(d));
    assert(out@ =~= before + decimal(n as nat));
}

/// A decimal notation holds at least one character, and nothing but digits.
pub proof fn decimal_digits(n: nat)
    ensures
        decimal(n).len() > 0,
        n >= 10 ==> decimal(n).len() > 1,
        forall|i: int| 0 <= i < decimal(n).len() ==> '0' <= #[trigger] decimal(n)[i] <= '9',
    decreases n,
{
    if n >= 10 {
        decimal_digits(n / 10);
    }
}

/// Different numbers have different decimal notations.
pub proof fn decimal_injective(n: nat, m: nat)
    requires
        decimal(n) == decimal(m),
    ensures
        n == m,
    decreases n,
{
    decimal_digits(n);
    decimal_digits(m);
    if n >= 10 && m >= 10 {
        assert(decimal(n).drop_last() =~= decimal(n / 10));
        assert(decimal(m).drop_last() =~= decimal(m / 10));
        assert(decimal(n).last() == decimal(m).last());
        assert(decimal(n).last() == digit((n % 10) as int));
        assert(decimal(m).last() == digit((m % 10) as int));
        assert(digit((n % 10) as int) as int == 48 + n % 10);
        assert(digit((m % 10) as int) as int == 48 + m % 10);
        decimal_injective(n / 10, m / 10);
    } else {
        assert(n < 10 && m < 10);
        assert(decimal(n)[0] == digit(n as int));
        assert(decimal(m)[0] == digit(m as int));
        assert(digit(n as int) as int == 48 + n);
        assert(digit(m as int) as int == 48 + m);
    }
}

/// The value of some decimal digits.
pub open spec fn digits_value(s: Seq<char>) -> nat
    decreases s.len(),
{
    if s.len() == 0 {
        0
    } else {
        digits_value(s.drop_last()) * 10 + (s.last() as int - 48) as nat
    }
}

/// Whether a text is made of decimal digits, of which there is at least one.
pub open spec fn all_digits(s: Seq<char>) -> bool {
    s.len() > 0 && forall|i: int| 0 <= i < s.len() ==> '0' <= #[trigger] s[i] <= '9'
}

/// The number that a text is: digits, with a plus sign before them or not, of a value that fits in
/// 64 bits.
pub open spec fn number(s: Seq<char>) -> Option<u64> {
    let digits = if s.len() > 0 && s[0] == '+' {
        s.drop_first()
    } else {
        s
    };
    if all_digits(digits) && digits_value(digits) <= u64::MAX {
        Some(digits_value(digits) as u64)
    } else {
        None
    }
}

proof fn digits_grow(s: Seq<char>, n: int)
    requires
        0 <= n <= s.len(),
    ensures
        digits_value(s.subrange(0, n)) <= digits_value(s),
    decreases s.len() - n,
{
    if n == s.len() {
        assert(s.subrange(0, n) =~= s);
    } else {
        digits_grow(s, n + 1);
        assert(s.subrange(0, n + 1).drop_last() =~= s.subrange(0, n));
    }
}

/// The number that a text is.
pub fn parse_number(s: &str) -> (n: Option<u64>)
    ensures
        n == number(s@),
{
    let v: Vec<char> = chars_of(s);
    let start: usize = if v.len() > 0 && v[0] == '+' { 1 } else { 0 };
    let ghost digits = if s@.len() > 0 && s@[0] == '+' {
        s@.drop_first()
    } else {
        s@
    };
    proof {
        assert(digits =~= v@.subrange(start as int, v@.len() as int));
    }
    if start == v.len() {
        return None;
    }
    let mut value: u64 = 0;
    let mut i: usize = start;
    assert(digits.subrange(0, 0) =~= Seq::empty());
    while i < v.len()
        invariant
            start <= i <= v@.len(),
            start < v@.len(),
            v@ == s@,
            digits == v@.subrange(start as int, v@.len() as int),
            number(s@) == (if all_digits(digits) && digits_value(digits) <= u64::MAX {
                Some(digits_value(digits) as u64)
            } else {
                None::<u64>
            }),
            forall|j: int| 0 <= j < i - start ==> '0' <= #[trigger] digits[j] <= '9',
            value == digits_value(digits.subrange(0, i - start)),
        decreases v@.len() - i,
    {
        let c: char = v[i];
        let ghost k = i - start;
        assert(digits[k] == c);
        if !('0' <= c && c <= '9') {
            return None;
        }
        let d: u64 = c as u64 - 48;
        proof {
            let next = digits.subrange(0, k + 1);
            assert(next.drop_last() =~= digits.subrange(0, k));
            assert(next.last() == c);
            digits_grow(digits, k + 1);
        }
        if value > u64::MAX / 10 {
            return None;
        }
        if value * 10 > u64::MAX - d {
            return None;
        }
        value = value * 10 + d;
        i = i + 1;
    }
    assert(digits.subrange(0, i - start) =~= digits);
    Some(value)
}

/// The characters of a text.
pub fn chars_of(s: &str) -> (v: Vec<char>)
    ensures
        v@ == s@,
{
    let mut v: Vec<char> = Vec::new();
    for c in it: s.chars()
        invariant
            it.seq() == s@,
            v@ == s@.subrange(0, it.index() as int),
    {
        let ghost at = it.index() as int;
        v.push(c);
        assert(v@ =~= s@.subrange(0, at + 1));
    }
    assert(v@ =~= s@);
    v
}

/// The text of some characters, from one place up to another.
pub fn text_of(v: &[char], from: usize, to: usize) -> (s: String)
    requires
        from <= to <= v@.len(),
    ensures
        s@ == v@.subrange(from as int, to as int),
{
    let mut s: String = String::new();
    let mut i: usize = from;
    while i < to
        invariant
            from <= i <= to <= v@.len(),
            s@ == v@.subrange(from as int, i as int),
        decreases to - i,
    {
        s.push(v[i]);
        i = i + 1;
        assert(s@ =~= v@.subrange(from as int, i as int));
    }
    s
}

/// A text with the same characters.
pub fn copy_str(s: &str) -> (t: String)
    ensures
        t@ == s@,
{
    let mut t: String = String::new();
    t.append(s);
    assert(t@ =~= s@);
    t
}

/// The texts of a list as `{:?}` shows it: in square brackets, with commas between them.
pub open spec fn debug_list(v: Seq<Seq<char>>) -> Seq<char> {
    "["@ + debug_items(v, v.len() as int) + "]"@
}

/// The first `n` texts of a list, as `{:?}` shows each, with commas between them.
pub open spec fn debug_items(v: Seq<Seq<char>>, n: int) -> Seq<char>
    decreases n,
{
    if n <= 0 {
        Seq::empty()
    } else if n == 1 {
        debug_text(v[0])
    } else {
        debug_items(v, n - 1) + ", "@ + debug_text(v[n - 1])
    }
}

/// The texts of a list as `{:?}` shows it.
pub fn quoted_list(v: &Vec<String>) -> (q: String)
    ensures
        q@ == debug_list(texts(v@)),
{
    let ghost ts = texts(v@);
    let mut q: String = copy_str("[");
    let ghost head = q@;
    let mut i: usize = 0;
    assert(q@ =~= head + debug_items(ts, 0));
    while i < v.len()
        invariant
            i <= v@.len(),
            ts == texts(v@),
            q@ == head + debug_items(ts, i as int),
        decreases v@.len() - i,
    {
        assert(ts[i as int] == v@[i as int]@);
        if i > 0 {
            q.append(", ");
        }
        let item: String = quoted(v[i].as_str());
        q.append(item.as_str());
        assert(q@ =~= head + debug_items(ts, i + 1));
        i = i + 1;
    }
    q.append("]");
    q
}

/// The decimals of `frac`, of which `unit` is the value of the first; zeros at the end are left
/// out.
pub open spec fn decimals(frac: nat, unit: nat) -> Seq<char>
    decreases unit,
{
    if frac == 0 || unit == 0 {
        Seq::empty()
    } else {
        seq![digit((frac / unit) as int)] + decimals(frac % unit, unit / 10)
    }
}

/// Some millionths in decimal notation: no more decimals than it takes, no point without one.
pub open spec fn millionths(n: nat) -> Seq<char> {
    if n % 1_000_000 == 0 {
        decimal(n / 1_000_000)
    } else {
        decimal(n / 1_000_000) + "."@ + decimals(n % 1_000_000, 100_000)
    }
}

/// Appends some millionths in decimal notation.
pub fn push_millionths(out: &mut String, n: u64)
    ensures
        final(out)@ == old(out)@ + millionths(n as nat),
{
    let ghost before = out@;
    push_decimal(out, n / 1_000_000);
    let mut frac: u64 = n % 1_000_000;
    if frac == 0 {
        return;
    }
    out.append(".");
    let ghost start = out@;
    let ghost all = decimals(frac as nat, 100_000);
    let mut unit: u64 = 100_000;
    assert(start + all =~= before + millionths(n as nat));
    while frac != 0 && unit != 0
        invariant
            unit <= 100_000,
            unit > 0 ==> frac < 10 * unit,
            unit == 0 ==> frac == 0,
            unit == 100_000 || unit == 10_000 || unit == 1_000 || unit == 100 || unit == 10 || unit
                == 1 || unit == 0,
            start + all == out@ + decimals(frac as nat, unit as nat),
        decreases unit,
    {
        let ghost so_far = out@;
        assert(frac / unit < 10) by (nonlinear_arith)
            requires
                frac < 10 * unit,
                unit > 0,
        ;
        assert(frac % unit < unit);
        let d: u8 = (frac / unit) as u8;
        assert(d == frac / unit);
        out.push(digit_char(d));
        assert(so_far + decimals(frac as nat, unit as nat) =~= out@ + decimals(
            (frac % unit) as nat,
            (unit / 10) as nat,
        ));
        frac = frac % unit;
        unit = unit / 10;
    }
    assert(out@ + decimals(frac as nat, unit as nat) =~= out@);
}

/// One byte string comes before another where it has the smaller byte at the first place at which
/// they differ, or ends there.
pub proof fn first_difference_decides(a: Seq<u8>, b: Seq<u8>)
    ensures
        bytes_lt(a, b) <==> exists|i: int| #[trigger] differ_first_at(a, b, i),
    decreases a.len(),
{
    if a.len() > 0 && b.len() > 0 {
        let (x, y) = (a.drop_first(), b.drop_first());
        first_difference_decides(x, y);
        if a[0] < b[0] {
            assert(differ_first_at(a, b, 0));
        }
        if a[0] == b[0] && bytes_lt(x, y) {
            let i = choose|i: int| #[trigger] differ_first_at(x, y, i);
            assert forall|k: int| 0 <= k < i + 1 implies #[trigger] a[k] == b[k] by {
                if k > 0 {
                    assert(x[k - 1] == y[k - 1]);
                }
            }
            assert(differ_first_at(a, b, i + 1));
        }
        if exists|i: int| #[trigger] differ_first_at(a, b, i) {
            let i = choose|i: int| #[trigger] differ_first_at(a, b, i);
            if i > 0 {
                assert(a[0] == b[0]);
                assert forall|k: int| 0 <= k < i - 1 implies #[trigger] x[k] == y[k] by {
                    assert(a[k + 1] == b[k + 1]);
                }
                assert(differ_first_at(x, y, i - 1));
            }
        }
    } else if b.len() > 0 {
        assert(differ_first_at(a, b, 0));
    }
}

/// Whether `a` and `b` are alike before `i`, and there `a` ends or has the smaller byte.
pub open spec fn differ_first_at(a: Seq<u8>, b: Seq<u8>, i: int) -> bool {
    &&& 0 <= i <= a.len()
    &&& i < b.len()
    &&& forall|k: int| 0 <= k < i ==> #[trigger] a[k] == b[k]
    &&& i == a.len() || a[i] < b[i]
}

/// Each digit of a text counts ten times as much as the one behind it.
pub proof fn digit_behind_makes_ten_times_more(s: Seq<char>, d: int)
    requires
        0 <= d <= 9,
    ensures
        digit(d) as int == '0' as int + d,
        digits_value(s.push(digit(d))) == 10 * digits_value(s) + d,
        digits_value(Seq::empty()) == 0,
{
    assert(s.push(digit(d)).drop_last() =~= s);
}

/// A number in decimal notation stands for itself, without zeros before it.
pub proof fn decimal_notation_stands_for_the_number(n: nat)
    ensures
        digits_value(decimal(n)) == n,
        all_digits(decimal(n)),
        n > 0 ==> decimal(n)[0] != '0',
    decreases n,
{
    decimal_digits(n);
    if n < 10 {
        assert(decimal(n) =~= Seq::empty().push(digit(n as int)));
        digit_behind_makes_ten_times_more(Seq::empty(), n as int);
    } else {
        decimal_notation_stands_for_the_number(n / 10);
        digit_behind_makes_ten_times_more(decimal(n / 10), (n % 10) as int);
        decimal_digits(n / 10);
        assert(decimal(n)[0] == decimal(n / 10)[0]);
    }
}

/// A number reads back from its decimal notation, with a plus sign before it or not.
pub proof fn written_number_reads_back(n: u64)
    ensures
        number(decimal(n as nat)) == Some(n),
        number(seq!['+'] + decimal(n as nat)) == Some(n),
{
    decimal_notation_stands_for_the_number(n as nat);
    let signed = seq!['+'] + decimal(n as nat);
    assert(signed.drop_first() =~= decimal(n as nat));
    assert('0' <= decimal(n as nat)[0]);
}

/// A text is a number only where it holds digits, and behind a plus sign nothing but digits, of a
/// value that fits.
pub proof fn only_digits_are_a_number(s: Seq<char>)
    requires
        number(s) is Some,
    ensures
        s.len() > 0,
        '0' <= s.last() <= '9',
        forall|i: int| 1 <= i < s.len() ==> '0' <= #[trigger] s[i] <= '9',
        s[0] == '+' || '0' <= s[0] <= '9',
        s[0] != '+' ==> number(s)->0 == digits_value(s),
        s[0] == '+' ==> number(s)->0 == digits_value(s.drop_first()),
{
    if s[0] == '+' {
        assert forall|i: int| 1 <= i < s.len() implies '0' <= #[trigger] s[i] <= '9' by {
            assert(s.drop_first()[i - 1] == s[i]);
        }
        assert(s.drop_first().last() == s.last());
    }
}

/// The value of some decimals, of which `unit` is the value of the first.
pub open spec fn decimals_value(s: Seq<char>, unit: nat) -> nat
    decreases s.len(),
{
    if s.len() == 0 {
        0
    } else {
        ((s[0] as int - '0' as int) * unit) as nat + decimals_value(s.drop_first(), unit / 10)
    }
}

proof fn decimals_add_up(frac: nat, unit: nat)
    requires
        unit == 100_000 || unit == 10_000 || unit == 1_000 || unit == 100 || unit == 10 || unit
            == 1 || unit == 0,
        unit > 0 ==> frac < 10 * unit,
        unit == 0 ==> frac == 0,
    ensures
        decimals_value(decimals(frac, unit), unit) == frac,
        forall|i: int|
            0 <= i < decimals(frac, unit).len() ==> '0' <= #[trigger] decimals(frac, unit)[i]
                <= '9',
        frac > 0 ==> decimals(frac, unit).len() > 0 && decimals(frac, unit).last() != '0',
    decreases unit,
{
    if frac > 0 {
        let d = (frac / unit) as int;
        assert(0 <= d < 10) by (nonlinear_arith)
            requires
                d == frac / unit,
                frac < 10 * unit,
                unit > 0,
        ;
        assert(frac == d * unit + frac % unit) by (nonlinear_arith)
            requires
                d == frac / unit,
                unit > 0,
        ;
        decimals_add_up(frac % unit, unit / 10);
        let s = decimals(frac, unit);
        assert(s.drop_first() =~= decimals(frac % unit, unit / 10));
        assert(digit(d) as int == 48 + d);
        assert(s[0] == digit(d));
        assert forall|i: int| 0 <= i < s.len() implies '0' <= #[trigger] s[i] <= '9' by {
            if i > 0 {
                assert(s[i] == decimals(frac % unit, unit / 10)[i - 1]);
            }
        }
        if frac % unit > 0 {
            assert(s.last() == decimals(frac % unit, unit / 10).last());
        } else {
            assert(s =~= seq![digit(d)]);
            assert(d > 0) by (nonlinear_arith)
                requires
                    frac == d * unit + 0,
                    frac > 0,
                    unit > 0,
                    d >= 0,
            ;
        }
    }
}

/// Millionths in decimal notation stand for what they are: the whole ones before the point, the rest
/// behind it, and no zero at the end of the decimals.
pub proof fn millionths_stand_for_the_number(n: nat)
    ensures
        n % 1_000_000 == 0 ==> millionths(n) == decimal(n / 1_000_000),
        n % 1_000_000 != 0 ==> exists|rest: Seq<char>|
            {
                &&& #[trigger] (decimal(n / 1_000_000) + seq!['.'] + rest) == millionths(n)
                &&& decimals_value(rest, 100_000) == n % 1_000_000
                &&& rest.len() > 0
                &&& rest.last() != '0'
                &&& forall|i: int| 0 <= i < rest.len() ==> '0' <= #[trigger] rest[i] <= '9'
            },
{
    if n % 1_000_000 != 0 {
        let rest = decimals(n % 1_000_000, 100_000);
        decimals_add_up(n % 1_000_000, 100_000);
        reveal_strlit(".");
        assert("."@ =~= seq!['.']);
        assert(decimal(n / 1_000_000) + seq!['.'] + rest == millionths(n));
    }
}

/// A carriage return before a line feed is no part of the line, and nothing else is taken away; a
/// last line without a line feed counts where it holds something.
pub proof fn line_is_what_stands_before_the_feed(line: Seq<char>, rest: Seq<char>)
    requires
        !line.contains('\n'),
    ensures
        line.len() == 0 || line.last() != '\r' ==> lines(line + seq!['\n'] + rest) == seq![line]
            + lines(rest),
        lines(line.push('\r') + seq!['\n'] + rest) == seq![line] + lines(rest),
        line.len() > 0 ==> lines(line) == seq![line],
        lines(Seq::empty()) == Seq::<Seq<char>>::empty(),
{
    line_is_read(Seq::empty(), line, rest);
    assert(Seq::<char>::empty() + line =~= line);
    let cr = line.push('\r');
    assert forall|i: int| 0 <= i < cr.len() implies cr[i] != '\n' by {
        if i < line.len() {
            assert(line.contains(line[i]));
        }
    }
    line_is_read(Seq::empty(), cr, rest);
    assert(Seq::<char>::empty() + cr =~= cr);
    assert(cr.drop_last() =~= line);
    unended_line(Seq::empty(), line);
}

proof fn unended_line(current: Seq<char>, line: Seq<char>)
    requires
        !line.contains('\n'),
    ensures
        lines_after(current, line) == (if current.len() + line.len() == 0 {
            Seq::<Seq<char>>::empty()
        } else {
            seq![current + line]
        }),
    decreases line.len(),
{
    if line.len() > 0 {
        assert(line.contains(line[0]));
        assert forall|i: int| 0 <= i < line.drop_first().len() implies line.drop_first()[i]
            != '\n' by {
            assert(line.contains(line[i + 1]));
        }
        unended_line(current.push(line[0]), line.drop_first());
        assert(current.push(line[0]) + line.drop_first() =~= current + line);
    } else {
        assert(current + line =~= current);
    }
}

/// The space, the tab and what ends a line are white; nothing that ASCII shows is.
pub proof fn shown_characters_are_not_white(c: char)
    ensures
        '!' <= c <= '~' ==> !white(c),
        c == ' ' || c == '\t' || c == '\n' || c == '\r' ==> white(c),
{
}

/// Which code points are white: those from the tab to the carriage return, the space, the next line,
/// the space that does not break, and the ones that Unicode has beyond Latin.
pub proof fn white_code_points(c: char)
    ensures
        ({
            let n = c as int;
            &&& n < 128 ==> (white(c) <==> 9 <= n <= 13 || n == 32)
            &&& 128 <= n < 0x1000 ==> (white(c) <==> n == 0x85 || n == 0xa0)
            &&& 0x1000 <= n < 0x2000 ==> (white(c) <==> n == 0x1680)
            &&& 0x2000 <= n < 0x3000 ==> (white(c) <==> n <= 0x200a || n == 0x2028 || n == 0x2029
                || n == 0x202f || n == 0x205f)
            &&& 0x3000 <= n ==> (white(c) <==> n == 0x3000)
        }),
{
}

/// A text is blank where each of its parts is, and nothing at all is blank.
pub proof fn blank_text_is_blank_throughout(a: Seq<char>, b: Seq<char>, c: char)
    ensures
        blank(a + b) <==> blank(a) && blank(b),
        blank(seq![c]) <==> white(c),
        blank(Seq::empty()),
{
    let ab = a + b;
    if blank(ab) {
        assert forall|i: int| 0 <= i < a.len() implies white(#[trigger] a[i]) by {
            assert(ab[i] == a[i]);
        }
        assert forall|i: int| 0 <= i < b.len() implies white(#[trigger] b[i]) by {
            assert(ab[i + a.len()] == b[i]);
        }
    }
    assert(seq![c][0] == c);
}

/// A row of digits is a number where it is small enough, also with zeros or a plus sign before it.
pub proof fn digits_are_a_number(s: Seq<char>)
    requires
        s.len() > 0,
        forall|i: int| 0 <= i < s.len() ==> '0' <= #[trigger] s[i] <= '9',
    ensures
        number(s) is Some <==> digits_value(s) <= u64::MAX,
        number(s) matches Some(n) ==> n == digits_value(s),
        number(seq!['+'] + s) == number(s),
        number(seq!['0'] + s) == number(s),
        number(Seq::empty()) is None,
        number(seq!['+']) is None,
{
    assert('0' <= s[0] <= '9');
    let plus = seq!['+'] + s;
    assert(plus.drop_first() =~= s);
    let zero = seq!['0'] + s;
    assert forall|i: int| 0 <= i < zero.len() implies '0' <= #[trigger] zero[i] <= '9' by {
        if i > 0 {
            assert(zero[i] == s[i - 1]);
        }
    }
    leading_zero_adds_nothing(s);
    assert(seq!['+'].drop_first().len() == 0);
}

proof fn leading_zero_adds_nothing(s: Seq<char>)
    ensures
        digits_value(seq!['0'] + s) == digits_value(s),
    decreases s.len(),
{
    let zero = seq!['0'] + s;
    if s.len() == 0 {
        assert(zero.drop_last() =~= Seq::<char>::empty());
        assert(digits_value(zero.drop_last()) == 0);
    } else {
        leading_zero_adds_nothing(s.drop_last());
        assert(zero.drop_last() =~= seq!['0'] + s.drop_last());
    }
}

/// A text of ASCII characters has one byte for each, of the same value.
pub proof fn ascii_is_its_own_bytes(s: Seq<char>)
    requires
        forall|i: int| 0 <= i < s.len() ==> '\0' <= #[trigger] s[i] <= '\u{7f}',
    ensures
        utf8(s).len() == s.len(),
        forall|i: int| 0 <= i < s.len() ==> #[trigger] utf8(s)[i] == s[i] as u8,
{
    reveal(utf8);
    assert(vstd::utf8::is_ascii_chars(s));
    vstd::utf8::is_ascii_chars_encode_utf8(s);
}

/// Whether a text stands somewhere in another.
pub open spec fn stands_in(whole: Seq<char>, part: Seq<char>) -> bool {
    exists|i: int|
        0 <= i && i + part.len() <= whole.len() && #[trigger] whole.subrange(
            i,
            i + part.len(),
        ) == part
}

/// What stands between two texts stands in them joined.
pub proof fn part_stands_in(before: Seq<char>, part: Seq<char>, behind: Seq<char>)
    ensures
        stands_in(before + part + behind, part),
{
    let at = before.len() as int;
    assert((before + part + behind).subrange(at, at + part.len()) =~= part);
}

/// A list shows its texts in their order between brackets, with a comma and a space between two.
pub proof fn list_shows_every_text(v: Seq<Seq<char>>, last: Seq<char>)
    ensures
        debug_list(Seq::empty()) == "["@ + "]"@,
        debug_list(seq![last]) == "["@ + debug_text(last) + "]"@,
        v.len() > 0 ==> debug_list(v.push(last)) == debug_list(v).drop_last() + ", "@ + debug_text(
            last,
        ) + "]"@,
{
    reveal_strlit("]");
    assert(debug_list(Seq::empty()) =~= "["@ + "]"@);
    if v.len() > 0 {
        let n = v.len() as int;
        same_items(v, v.push(last), n);
        assert(debug_list(v).drop_last() =~= "["@ + debug_items(v, n));
        assert(debug_list(v.push(last)) =~= debug_list(v).drop_last() + ", "@ + debug_text(last)
            + "]"@);
    }
}

proof fn same_items(v: Seq<Seq<char>>, w: Seq<Seq<char>>, n: int)
    requires
        0 <= n <= v.len() <= w.len(),
        forall|i: int| 0 <= i < n ==> #[trigger] v[i] == w[i],
    ensures
        debug_items(v, n) == debug_items(w, n),
    decreases n,
{
    if n > 1 {
        same_items(v, w, n - 1);
    }
    if n > 0 {
        assert(v[n - 1] == w[n - 1]);
        assert(v[0] == w[0]);
    }
}

} // verus!
