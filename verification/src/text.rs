//! Character and byte level facts about text, and the string helpers the
//! rest of the library is built from.
//!
//! Strings are viewed as sequences of `char`s. Cursor positions in the
//! editor are byte offsets into the UTF-8 encoding of a line, so this module
//! relates the two: `byte_len` is the encoded length and `byte_offset(s, k)`
//! is the byte position at which the `k`-th character starts.
use vstd::prelude::*;

verus! {

/// Number of bytes in the UTF-8 encoding of `c`.
pub open spec fn char_width(c: char) -> nat {
    if (c as u32) <= 0x7F {
        1
    } else if (c as u32) <= 0x7FF {
        2
    } else if (c as u32) <= 0xFFFF {
        3
    } else {
        4
    }
}

/// Number of bytes in the UTF-8 encoding of `s`.
pub open spec fn byte_len(s: Seq<char>) -> nat
    decreases s.len(),
{
    if s.len() == 0 {
        0
    } else {
        byte_len(s.drop_last()) + char_width(s.last())
    }
}

/// Byte position at which the character with index `k` starts.
pub open spec fn byte_offset(s: Seq<char>, k: int) -> nat {
    byte_len(s.take(k))
}

/// `b` is a byte position that starts a character of `s`, or its end.
pub open spec fn is_boundary(s: Seq<char>, b: int) -> bool {
    exists|k: int| 0 <= k <= s.len() && #[trigger] byte_offset(s, k) == b
}

/// Index of the character that starts at byte position `b`.
pub open spec fn char_index(s: Seq<char>, b: int) -> int {
    choose|k: int| 0 <= k <= s.len() && #[trigger] byte_offset(s, k) == b
}

pub proof fn lemma_byte_len_concat(a: Seq<char>, b: Seq<char>)
    ensures
        byte_len(a + b) == byte_len(a) + byte_len(b),
    decreases b.len(),
{
    if b.len() == 0 {
        assert(a + b =~= a);
    } else {
        assert((a + b).drop_last() =~= a + b.drop_last());
        assert((a + b).last() == b.last());
        lemma_byte_len_concat(a, b.drop_last());
    }
}

pub proof fn lemma_byte_len_single(c: char)
    ensures
        byte_len(seq![c]) == char_width(c),
{
    assert(seq![c].drop_last() =~= Seq::<char>::empty());
    assert(byte_len(Seq::<char>::empty()) == 0);
}

pub proof fn lemma_byte_len_ge_len(s: Seq<char>)
    ensures
        byte_len(s) >= s.len(),
        byte_len(s) <= 4 * s.len(),
    decreases s.len(),
{
    if s.len() > 0 {
        lemma_byte_len_ge_len(s.drop_last());
    }
}

/// The length of the UTF-8 encoding, as vstd defines it, is `byte_len`.
pub proof fn lemma_byte_len_encode(s: Seq<char>)
    ensures
        vstd::utf8::encode_utf8(s).len() == byte_len(s),
    decreases s.len(),
{
    if s.len() > 0 {
        let c = s[0];
        vstd::utf8::char_is_scalar(c);
        assert(vstd::utf8::encode_scalar(c as u32).len() == char_width(c));
        lemma_byte_len_encode(s.drop_first());
        assert(s =~= seq![c] + s.drop_first());
        lemma_byte_len_concat(seq![c], s.drop_first());
        lemma_byte_len_single(c);
    }
}

/// Byte offsets grow strictly with the character index.
pub proof fn lemma_offset_mono(s: Seq<char>, j: int, k: int)
    requires
        0 <= j <= k <= s.len(),
    ensures
        byte_offset(s, j) <= byte_offset(s, k),
        j < k ==> byte_offset(s, j) < byte_offset(s, k),
        byte_offset(s, k) - byte_offset(s, j) >= k - j,
{
    assert(s.take(k) =~= s.take(j) + s.subrange(j, k));
    lemma_byte_len_concat(s.take(j), s.subrange(j, k));
    lemma_byte_len_ge_len(s.subrange(j, k));
}

/// The offset of the next character is the offset of this one plus its width.
pub proof fn lemma_offset_step(s: Seq<char>, k: int)
    requires
        0 <= k < s.len(),
    ensures
        byte_offset(s, k + 1) == byte_offset(s, k) + char_width(s[k]),
{
    assert(s.take(k + 1).drop_last() =~= s.take(k));
}

pub proof fn lemma_offset_full(s: Seq<char>)
    ensures
        byte_offset(s, s.len() as int) == byte_len(s),
{
    assert(s.take(s.len() as int) =~= s);
}

/// Every character start is a boundary, and it maps back to its index.
pub proof fn lemma_char_index(s: Seq<char>, k: int)
    requires
        0 <= k <= s.len(),
    ensures
        is_boundary(s, byte_offset(s, k) as int),
        char_index(s, byte_offset(s, k) as int) == k,
{
    let b = byte_offset(s, k) as int;
    assert(0 <= k <= s.len() && byte_offset(s, k) == b);
    let j = char_index(s, b);
    if j < k {
        lemma_offset_mono(s, j, k);
    } else if j > k {
        lemma_offset_mono(s, k, j);
    }
}

/// A boundary has a character index with that offset.
pub proof fn lemma_boundary_index(s: Seq<char>, b: int)
    requires
        is_boundary(s, b),
    ensures
        0 <= char_index(s, b) <= s.len(),
        byte_offset(s, char_index(s, b)) == b,
{
}

/// Byte offsets within a prefix agree with those of the whole.
pub proof fn lemma_offset_prefix(s: Seq<char>, t: Seq<char>, k: int)
    requires
        0 <= k <= s.len(),
    ensures
        byte_offset(s + t, k) == byte_offset(s, k),
{
    assert((s + t).take(k) =~= s.take(k));
}

/// Unicode `White_Space`, which `char::is_whitespace` tests.
pub open spec fn is_ws(c: char) -> bool {
    let v = c as u32;
    (0x09 <= v <= 0x0D) || v == 0x20 || v == 0x85 || v == 0xA0 || v == 0x1680 || (0x2000 <= v
        <= 0x200A) || v == 0x2028 || v == 0x2029 || v == 0x202F || v == 0x205F || v == 0x3000
}

pub open spec fn trim_start(s: Seq<char>) -> Seq<char>
    decreases s.len(),
{
    if s.len() > 0 && is_ws(s[0]) {
        trim_start(s.drop_first())
    } else {
        s
    }
}

pub open spec fn trim_end(s: Seq<char>) -> Seq<char>
    decreases s.len(),
{
    if s.len() > 0 && is_ws(s.last()) {
        trim_end(s.drop_last())
    } else {
        s
    }
}

/// `s` without leading and trailing whitespace, as `str::trim` gives it.
pub open spec fn trim(s: Seq<char>) -> Seq<char> {
    trim_end(trim_start(s))
}

pub proof fn lemma_trim_start_at(s: Seq<char>, i: int)
    requires
        0 <= i <= s.len(),
        forall|j: int| 0 <= j < i ==> is_ws(#[trigger] s[j]),
        i == s.len() || !is_ws(s[i]),
    ensures
        trim_start(s) == s.skip(i),
    decreases i,
{
    if i == 0 {
        assert(s.skip(0) =~= s);
    } else {
        assert(forall|j: int| 0 <= j < i - 1 ==> #[trigger] s.drop_first()[j] == s[j + 1]);
        lemma_trim_start_at(s.drop_first(), i - 1);
        assert(s.drop_first().skip(i - 1) =~= s.skip(i));
    }
}

pub proof fn lemma_trim_end_at(s: Seq<char>, i: int)
    requires
        0 <= i <= s.len(),
        forall|j: int| i <= j < s.len() ==> is_ws(#[trigger] s[j]),
        i == 0 || !is_ws(s[i - 1]),
    ensures
        trim_end(s) == s.take(i),
    decreases s.len() - i,
{
    if i == s.len() {
        assert(s.take(i) =~= s);
    } else {
        lemma_trim_end_at(s.drop_last(), i);
        assert(s.drop_last().take(i) =~= s.take(i));
    }
}

/// Whether `c` is whitespace in the sense of `char::is_whitespace`.
pub fn is_whitespace(c: char) -> (r: bool)
    ensures
        r == is_ws(c),
{
    let v = c as u32;
    (0x09 <= v && v <= 0x0D) || v == 0x20 || v == 0x85 || v == 0xA0 || v == 0x1680 || (0x2000
        <= v && v <= 0x200A) || v == 0x2028 || v == 0x2029 || v == 0x202F || v == 0x205F || v
        == 0x3000
}

/// Number of bytes in the UTF-8 encoding of `c`.
pub fn char_width_of(c: char) -> (w: usize)
    ensures
        w == char_width(c),
        1 <= w <= 4,
{
    let v = c as u32;
    if v <= 0x7F {
        1
    } else if v <= 0x7FF {
        2
    } else if v <= 0xFFFF {
        3
    } else {
        4
    }
}

/// Byte length of `s`; it always fits in a `usize`.
pub fn str_byte_len(s: &str) -> (n: usize)
    ensures
        n == byte_len(s@),
{
    let bytes = s.as_bytes();
    proof {
        lemma_byte_len_encode(s@);
    }
    bytes.len()
}

/// Index of the character starting at byte position `b`, if `b` is a boundary.
pub fn boundary_index(s: &str, b: usize) -> (r: Option<usize>)
    ensures
        r is Some <==> is_boundary(s@, b as int),
        r matches Some(k) ==> k == char_index(s@, b as int) && k <= s@.len() && byte_offset(
            s@,
            k as int,
        ) == b,
{
    let n = s.unicode_len();
    let mut i: usize = 0;
    let mut acc: usize = 0;
    proof {
        assert(s@.take(0) =~= Seq::<char>::empty());
    }
    while i < n && acc < b
        invariant
            n == s@.len(),
            i <= n,
            acc == byte_offset(s@, i as int),
            acc <= b,
        decreases n - i,
    {
        let c = s.get_char(i);
        let w = char_width_of(c);
        proof {
            lemma_offset_step(s@, i as int);
        }
        if w > b - acc {
            proof {
                assert forall|k: int| 0 <= k <= s@.len() implies #[trigger] byte_offset(s@, k)
                    != b by {
                    if k <= i {
                        lemma_offset_mono(s@, k, i as int);
                    } else {
                        lemma_offset_mono(s@, i as int + 1, k);
                    }
                }
            }
            return None;
        }
        acc = acc + w;
        i = i + 1;
    }
    if acc == b {
        proof {
            lemma_char_index(s@, i as int);
        }
        Some(i)
    } else {
        proof {
            assert(i == n);
            assert forall|k: int| 0 <= k <= s@.len() implies #[trigger] byte_offset(s@, k) != b by {
                lemma_offset_mono(s@, k, i as int);
            }
        }
        None
    }
}

/// Appends `c` to `s` with `String::push`; the contract claims what its
/// documentation says: the characters of `s` gain `c` at the end.
#[verifier::external_body]
pub(crate) fn push_char(s: &mut String, c: char)
    ensures
        final(s)@ == old(s)@.push(c),
{
    s.push(c)
}

/// A new string holding the characters of `s` from index `from` up to `to`.
pub fn substring(s: &str, from: usize, to: usize) -> (r: String)
    requires
        from <= to <= s@.len(),
    ensures
        r@ == s@.subrange(from as int, to as int),
{
    String::from_str(s.substring_char(from, to))
}

/// `s` with `c` inserted before the character with index `k`.
pub fn insert_at(s: &str, k: usize, c: char) -> (r: String)
    requires
        k <= s@.len(),
    ensures
        r@ == s@.take(k as int).push(c) + s@.skip(k as int),
{
    let n = s.unicode_len();
    let mut r = substring(s, 0, k);
    push_char(&mut r, c);
    r.append(s.substring_char(k, n));
    proof {
        assert(s@.subrange(0, k as int) =~= s@.take(k as int));
        assert(s@.subrange(k as int, n as int) =~= s@.skip(k as int));
    }
    r
}

/// `s` without the character with index `k`.
pub fn remove_at(s: &str, k: usize) -> (r: String)
    requires
        k < s@.len(),
    ensures
        r@ == s@.take(k as int) + s@.skip(k as int + 1),
{
    let n = s.unicode_len();
    let mut r = substring(s, 0, k);
    r.append(s.substring_char(k + 1, n));
    proof {
        assert(s@.subrange(0, k as int) =~= s@.take(k as int));
        assert(s@.subrange(k as int + 1, n as int) =~= s@.skip(k as int + 1));
    }
    r
}

/// `a` followed by `b`.
pub fn concat(a: &str, b: &str) -> (r: String)
    ensures
        r@ == a@ + b@,
{
    let mut r = String::from_str(a);
    r.append(b);
    r
}

/// `s` without leading and trailing whitespace.
pub fn trim_str(s: &str) -> (r: String)
    ensures
        r@ == trim(s@),
{
    let n = s.unicode_len();
    let mut i: usize = 0;
    while i < n && is_whitespace(s.get_char(i))
        invariant
            n == s@.len(),
            i <= n,
            forall|j: int| 0 <= j < i ==> is_ws(#[trigger] s@[j]),
        decreases n - i,
    {
        i = i + 1;
    }
    proof {
        lemma_trim_start_at(s@, i as int);
    }
    let mut e: usize = n;
    while e > i && is_whitespace(s.get_char(e - 1))
        invariant
            n == s@.len(),
            i <= e <= n,
            forall|j: int| e <= j < n ==> is_ws(#[trigger] s@[j]),
        decreases e,
    {
        e = e - 1;
    }
    proof {
        let t = s@.skip(i as int);
        assert forall|j: int| e - i <= j < t.len() implies is_ws(#[trigger] t[j]) by {
            assert(t[j] == s@[j + i]);
        }
        if e > i {
            assert(t[e - i - 1] == s@[e - 1]);
        }
        lemma_trim_end_at(t, e - i);
        assert(t.take(e - i) =~= s@.subrange(i as int, e as int));
    }
    substring(s, i, e)
}

/// `byte_len` of a part is at most that of the whole.
pub proof fn lemma_byte_len_subrange(t: Seq<char>, a: int, b: int)
    requires
        0 <= a <= b <= t.len(),
    ensures
        byte_len(t.subrange(a, b)) <= byte_len(t),
{
    assert(t =~= t.take(a) + t.subrange(a, b) + t.skip(b));
    lemma_byte_len_concat(t.take(a), t.subrange(a, b));
    lemma_byte_len_concat(t.take(a) + t.subrange(a, b), t.skip(b));
}

/// The pieces of `s` between newline characters; there is always at least one.
pub open spec fn split_newlines(s: Seq<char>) -> Seq<Seq<char>>
    decreases s.len(),
{
    if s.len() == 0 {
        seq![Seq::<char>::empty()]
    } else {
        let p = split_newlines(s.drop_last());
        if s.last() == '\n' {
            p.push(Seq::<char>::empty())
        } else {
            p.update(p.len() - 1, p.last().push(s.last()))
        }
    }
}

/// A line without the carriage return that ended it, if there was one.
pub open spec fn strip_cr(l: Seq<char>) -> Seq<char> {
    if l.len() > 0 && l.last() == '\r' {
        l.drop_last()
    } else {
        l
    }
}

/// The lines of `s` as `str::lines` yields them: split at `\n` or `\r\n`,
/// with the final line ending optional, and no lines at all for an empty text.
pub open spec fn text_lines(s: Seq<char>) -> Seq<Seq<char>> {
    let p = split_newlines(s);
    let body = p.drop_last().map_values(|l: Seq<char>| strip_cr(l));
    if p.last().len() == 0 {
        body
    } else {
        body.push(p.last())
    }
}

/// The lines `ls` joined by `\n`, as `[String]::join("\n")` gives them.
pub open spec fn join_lines(ls: Seq<Seq<char>>) -> Seq<char>
    decreases ls.len(),
{
    if ls.len() == 0 {
        Seq::<char>::empty()
    } else if ls.len() == 1 {
        ls[0]
    } else {
        join_lines(ls.drop_last()) + seq!['\n'] + ls.last()
    }
}

pub proof fn lemma_split_newlines_len(s: Seq<char>)
    ensures
        split_newlines(s).len() >= 1,
    decreases s.len(),
{
    if s.len() > 0 {
        lemma_split_newlines_len(s.drop_last());
    }
}

/// Pieces of a text are free of newlines.
pub proof fn lemma_split_newlines_no_nl(s: Seq<char>)
    ensures
        forall|i: int, j: int|
            0 <= i < split_newlines(s).len() && 0 <= j < split_newlines(s)[i].len() ==> (
            #[trigger] split_newlines(s)[i][j]) != '\n',
    decreases s.len(),
{
    lemma_split_newlines_len(s);
    if s.len() > 0 {
        lemma_split_newlines_no_nl(s.drop_last());
        lemma_split_newlines_len(s.drop_last());
        let p = split_newlines(s.drop_last());
        if s.last() != '\n' {
            assert forall|i: int, j: int|
                0 <= i < split_newlines(s).len() && 0 <= j < split_newlines(s)[i].len() implies (
            #[trigger] split_newlines(s)[i][j]) != '\n' by {
                if i == p.len() - 1 && j == p.last().len() {
                } else {
                    assert(split_newlines(s)[i][j] == p[i][j]);
                }
            }
        }
    }
}

/// Joining the pieces of a text by newlines gives back the text.
pub proof fn lemma_join_split(s: Seq<char>)
    ensures
        join_lines(split_newlines(s)) == s,
    decreases s.len(),
{
    lemma_split_newlines_len(s);
    if s.len() > 0 {
        let p = split_newlines(s.drop_last());
        lemma_join_split(s.drop_last());
        lemma_split_newlines_len(s.drop_last());
        let q = split_newlines(s);
        if s.last() == '\n' {
            assert(q.drop_last() =~= p);
            if p.len() == 1 {
                assert(join_lines(p) == p[0]);
            }
            assert(join_lines(q) == join_lines(p) + seq!['\n'] + Seq::<char>::empty());
            assert(s =~= s.drop_last() + seq!['\n'] + Seq::<char>::empty());
        } else {
            if p.len() == 1 {
                assert(q =~= seq![p[0].push(s.last())]);
                assert(s =~= s.drop_last().push(s.last()));
            } else {
                assert(q.drop_last() =~= p.drop_last());
                let pre = join_lines(p.drop_last()) + seq!['\n'];
                assert(join_lines(p) == pre + p.last());
                assert(join_lines(q) == pre + p.last().push(s.last()));
                assert(pre + p.last().push(s.last()) =~= (pre + p.last()).push(s.last()));
                assert(s =~= s.drop_last().push(s.last()));
            }
        }
    }
}

/// Splitting newline-free lines joined by newlines gives back the lines.
pub proof fn lemma_split_join(ls: Seq<Seq<char>>)
    requires
        ls.len() >= 1,
        forall|i: int, j: int| 0 <= i < ls.len() && 0 <= j < ls[i].len() ==> #[trigger] ls[i][j] != '\n',
    ensures
        split_newlines(join_lines(ls)) == ls,
    decreases ls.len(),
{
    if ls.len() == 1 {
        let e = Seq::<char>::empty();
        assert(split_newlines(e) =~= Seq::<Seq<char>>::empty().push(e));
        lemma_split_line_at(Seq::<Seq<char>>::empty(), ls[0], e, ls[0].len() as int);
        assert(ls[0].take(ls[0].len() as int) =~= ls[0]);
        assert(e + ls[0] =~= ls[0]);
        assert(Seq::<Seq<char>>::empty().push(ls[0]) =~= ls);
    } else {
        let init = ls.drop_last();
        assert forall|i: int, j: int| 0 <= i < init.len() && 0 <= j < init[i].len() implies #[trigger] init[i][j] != '\n' by {
            assert(init[i] == ls[i]);
        }
        lemma_split_join(init);
        let t = join_lines(init) + seq!['\n'];
        assert(t.drop_last() =~= join_lines(init));
        assert(split_newlines(t) == init.push(Seq::<char>::empty()));
        lemma_split_line(init, ls.last());
        assert(t + ls.last() =~= join_lines(ls));
        assert(init.push(ls.last()) =~= ls);
    }
}

/// Appending a newline-free piece extends the last piece.
proof fn lemma_split_line(init: Seq<Seq<char>>, l: Seq<char>)
    requires
        forall|j: int| 0 <= j < l.len() ==> #[trigger] l[j] != '\n',
    ensures
        forall|t: Seq<char>| split_newlines(t) == init.push(Seq::<char>::empty()) ==>
            #[trigger] split_newlines(t + l) == init.push(l),
    decreases l.len(),
{
    assert forall|t: Seq<char>| split_newlines(t) == init.push(Seq::<char>::empty()) implies
        #[trigger] split_newlines(t + l) == init.push(l) by {
        lemma_split_line_at(init, l, t, l.len() as int);
        assert(l.take(l.len() as int) =~= l);
    }
}

proof fn lemma_split_line_at(init: Seq<Seq<char>>, l: Seq<char>, t: Seq<char>, k: int)
    requires
        0 <= k <= l.len(),
        forall|j: int| 0 <= j < l.len() ==> #[trigger] l[j] != '\n',
        split_newlines(t) == init.push(Seq::<char>::empty()),
    ensures
        split_newlines(t + l.take(k)) == init.push(l.take(k)),
    decreases k,
{
    if k == 0 {
        assert(t + l.take(0) =~= t);
        assert(l.take(0) =~= Seq::<char>::empty());
    } else {
        lemma_split_line_at(init, l, t, k - 1);
        let u = t + l.take(k);
        assert(u.drop_last() =~= t + l.take(k - 1));
        assert(u.last() == l[k - 1]);
        assert(l.take(k - 1).push(l[k - 1]) =~= l.take(k));
        assert(init.push(l.take(k - 1)).update(init.len() as int, l.take(k)) =~= init.push(l.take(k)));
    }
}

/// The pieces of two texts joined by a newline are the pieces of each.
pub proof fn lemma_split_concat(a: Seq<char>, b: Seq<char>)
    ensures
        split_newlines(a + seq!['\n'] + b) == split_newlines(a) + split_newlines(b),
    decreases b.len(),
{
    lemma_split_newlines_len(a);
    let t = a + seq!['\n'] + b;
    if b.len() == 0 {
        assert(t.drop_last() =~= a);
        assert(split_newlines(a).push(Seq::<char>::empty()) =~= split_newlines(a) + split_newlines(b));
    } else {
        let b0 = b.drop_last();
        lemma_split_concat(a, b0);
        lemma_split_newlines_len(b0);
        assert(t.drop_last() =~= a + seq!['\n'] + b0);
        let q = split_newlines(b0);
        let p = split_newlines(a) + q;
        if b.last() == '\n' {
            assert(p.push(Seq::<char>::empty()) =~= split_newlines(a) + q.push(Seq::<char>::empty()));
        } else {
            assert(p.update(p.len() - 1, p.last().push(b.last())) =~= split_newlines(a) + q.update(
                q.len() - 1,
                q.last().push(b.last()),
            ));
        }
    }
}

/// The lines of a text that is empty or ends a line, followed by more
/// text, are the lines of the one and then those of the other.
pub proof fn lemma_text_lines_append(f: Seq<char>, y: Seq<char>)
    requires
        f.len() == 0 || f.last() == '\n',
    ensures
        text_lines(f + y) == text_lines(f) + text_lines(y),
{
    let e = Seq::<char>::empty();
    assert(split_newlines(e) =~= seq![e]);
    assert(text_lines(e) =~= Seq::<Seq<char>>::empty());
    if f.len() == 0 {
        assert(f + y =~= y);
        assert(text_lines(f) + text_lines(y) =~= text_lines(y));
    } else {
        let g = f.drop_last();
        assert(f =~= g + seq!['\n'] + e);
        assert(f + y =~= g + seq!['\n'] + y);
        lemma_split_concat(g, y);
        lemma_split_concat(g, e);
        lemma_split_newlines_len(y);
        let sg = split_newlines(g);
        let sy = split_newlines(y);
        assert((sg + sy).drop_last() =~= sg + sy.drop_last());
        assert((sg + seq![e]).drop_last() =~= sg);
        assert(text_lines(f) =~= sg.map_values(|l: Seq<char>| strip_cr(l)));
        if sy.last().len() == 0 {
            assert(text_lines(f + y) =~= text_lines(f) + text_lines(y));
        } else {
            assert(text_lines(f + y) =~= text_lines(f) + text_lines(y));
        }
    }
}

/// A line without a newline, ended by one, is the one line of that text,
/// unless it ends in a carriage return.
pub proof fn lemma_text_line(l: Seq<char>)
    requires
        forall|j: int| 0 <= j < l.len() ==> #[trigger] l[j] != '\n',
        l.len() == 0 || l.last() != '\r',
    ensures
        text_lines(l + seq!['\n']) == seq![l],
{
    assert(forall|i: int, j: int| 0 <= i < seq![l].len() && 0 <= j < seq![l][i].len() ==> #[trigger] seq![l][i][j] == l[j]);
    lemma_split_join(seq![l]);
    assert(join_lines(seq![l]) == l);
    let t = l + seq!['\n'];
    assert(t.drop_last() =~= l);
    assert(split_newlines(t) =~= seq![l, Seq::<char>::empty()]);
    assert(text_lines(t) =~= seq![l]);
}

/// A text without whitespace at either end is its own trim.
pub proof fn lemma_trim_id(s: Seq<char>)
    requires
        s.len() == 0 || (!is_ws(s[0]) && !is_ws(s.last())),
    ensures
        trim(s) == s,
{
    lemma_trim_start_at(s, 0);
    assert(s.skip(0) =~= s);
    lemma_trim_end_at(s, s.len() as int);
    assert(s.take(s.len() as int) =~= s);
}

proof fn lemma_trim_start_len(s: Seq<char>)
    ensures
        trim_start(s).len() <= s.len(),
        s.len() > 0 && is_ws(s[0]) ==> trim_start(s).len() < s.len(),
    decreases s.len(),
{
    if s.len() > 0 && is_ws(s[0]) {
        lemma_trim_start_len(s.drop_first());
    }
}

proof fn lemma_trim_end_len(s: Seq<char>)
    ensures
        trim_end(s).len() <= s.len(),
        s.len() > 0 && is_ws(s.last()) ==> trim_end(s).len() < s.len(),
    decreases s.len(),
{
    if s.len() > 0 && is_ws(s.last()) {
        lemma_trim_end_len(s.drop_last());
    }
}

/// A text that is its own trim has no whitespace at either end.
pub proof fn lemma_trimmed_ends(s: Seq<char>)
    requires
        trim(s) == s,
        s.len() > 0,
    ensures
        !is_ws(s[0]),
        !is_ws(s.last()),
{
    lemma_trim_start_len(s);
    lemma_trim_end_len(trim_start(s));
    if !is_ws(s[0]) {
        assert(trim_start(s) == s);
        lemma_trim_end_len(s);
    }
}

/// Splits `text` into its lines, as `str::lines` does.
pub fn lines_of(text: &str) -> (r: Vec<String>)
    ensures
        r@.map_values(|l: String| l@) == text_lines(text@),
        forall|i: int| 0 <= i < r.len() ==> byte_len(#[trigger] r[i]@) <= byte_len(text@),
{
    let n = text.unicode_len();
    let mut acc: Vec<String> = Vec::new();
    let mut cur = String::new();
    let mut i: usize = 0;
    let mut start: usize = 0;
    proof {
        assert(text@.take(0) =~= Seq::<char>::empty());
        assert(text@.subrange(0, 0) =~= Seq::<char>::empty());
    }
    while i < n
        invariant
            n == text@.len(),
            start <= i <= n,
            cur@ == text@.subrange(start as int, i as int),
            split_newlines(text@.take(i as int)) == split_newlines(text@.take(i as int)).drop_last().push(cur@),
            acc@.map_values(|l: String| l@) == split_newlines(text@.take(i as int)).drop_last().map_values(
                |l: Seq<char>| strip_cr(l),
            ),
            forall|j: int| 0 <= j < acc.len() ==> byte_len(#[trigger] acc[j]@) <= byte_len(text@),
        decreases n - i,
    {
        let c = text.get_char(i);
        let ghost before = split_newlines(text@.take(i as int));
        proof {
            lemma_split_newlines_len(text@.take(i as int));
            assert(text@.take(i as int + 1).drop_last() =~= text@.take(i as int));
            assert(text@.take(i as int + 1).last() == c);
        }
        let ghost old_cur = cur@;
        let ghost old_acc = acc@.map_values(|l: String| l@);
        if c == '\n' {
            let m = cur.unicode_len();
            let line = if m > 0 && cur.as_str().get_char(m - 1) == '\r' {
                substring(cur.as_str(), 0, m - 1)
            } else {
                substring(cur.as_str(), 0, m)
            };
            proof {
                assert(cur@.subrange(0, m as int) =~= cur@);
                if m > 0 { assert(cur@.subrange(0, m as int - 1) =~= cur@.drop_last()); }
                lemma_byte_len_subrange(cur@, 0, line@.len() as int);
                lemma_byte_len_subrange(text@, start as int, i as int);
                assert(line@ == strip_cr(cur@));
            }
            acc.push(line);
            cur = String::new();
            start = i + 1;
            proof {
                let after = split_newlines(text@.take(i as int + 1));
                assert(after == before.push(Seq::<char>::empty()));
                assert(after.drop_last() =~= before);
                assert(before.last() == old_cur);
                assert(before.drop_last().push(old_cur) =~= before);
                assert(acc@.map_values(|l: String| l@) =~= old_acc.push(strip_cr(old_cur)));
                assert(acc@.map_values(|l: String| l@) =~= after.drop_last().map_values(
                    |l: Seq<char>| strip_cr(l),
                ));
                assert(text@.subrange(start as int, start as int) =~= Seq::<char>::empty());
            }
        } else {
            push_char(&mut cur, c);
            proof {
                let after = split_newlines(text@.take(i as int + 1));
                assert(after == before.update(before.len() - 1, before.last().push(c)));
                assert(after.drop_last() =~= before.drop_last());
                assert(after =~= after.drop_last().push(cur@));
                assert(text@.subrange(start as int, i as int + 1) =~= text@.subrange(start as int, i as int).push(c));
            }
        }
        i = i + 1;
    }
    proof {
        assert(text@.take(n as int) =~= text@);
        lemma_split_newlines_len(text@);
    }
    if cur.unicode_len() > 0 {
        proof {
            lemma_byte_len_subrange(text@, start as int, i as int);
        }
        acc.push(cur);
        proof {
            let p = split_newlines(text@);
            assert(acc@.map_values(|l: String| l@) =~= p.drop_last().map_values(|l: Seq<char>| strip_cr(l)).push(p.last()));
        }
    }
    acc
}

/// The lines `ls` joined by newlines.
pub fn join_with_newlines(ls: &[String]) -> (r: String)
    ensures
        r@ == join_lines(ls@.map_values(|l: String| l@)),
{
    let ghost v = ls@.map_values(|l: String| l@);
    let mut r = String::new();
    let mut i: usize = 0;
    while i < ls.len()
        invariant
            i <= ls.len(),
            v == ls@.map_values(|l: String| l@),
            r@ == join_lines(v.take(i as int)),
        decreases ls.len() - i,
    {
        proof {
            assert(v.take(i as int + 1).drop_last() =~= v.take(i as int));
            assert(v.take(i as int + 1).last() == ls[i as int]@);
            if i == 0 {
                assert(v.take(1) =~= seq![ls[0]@]);
            }
        }
        if i > 0 {
            push_char(&mut r, '\n');
        }
        r.append(ls[i].as_str());
        proof {
            if i == 0 {
                assert(r@ =~= ls[0]@);
            }
        }
        i = i + 1;
    }
    proof {
        assert(v.take(ls.len() as int) =~= v);
    }
    r
}

/// Whether `a` and `b` hold the same characters.
pub fn str_eq(a: &str, b: &str) -> (r: bool)
    ensures
        r == (a@ == b@),
{
    let n = a.unicode_len();
    if n != b.unicode_len() {
        return false;
    }
    let mut i: usize = 0;
    while i < n
        invariant
            n == a@.len() == b@.len(),
            i <= n,
            forall|j: int| 0 <= j < i ==> a@[j] == b@[j],
        decreases n - i,
    {
        if a.get_char(i) != b.get_char(i) {
            return false;
        }
        i = i + 1;
    }
    proof {
        assert(a@ =~= b@);
    }
    true
}

/// The decimal digit for `d`.
pub open spec fn digit(d: nat) -> char {
    if d == 0 {
        '0'
    } else if d == 1 {
        '1'
    } else if d == 2 {
        '2'
    } else if d == 3 {
        '3'
    } else if d == 4 {
        '4'
    } else if d == 5 {
        '5'
    } else if d == 6 {
        '6'
    } else if d == 7 {
        '7'
    } else if d == 8 {
        '8'
    } else {
        '9'
    }
}

/// `n` written in decimal, as `Display` for an unsigned integer writes it.
pub open spec fn decimal(n: nat) -> Seq<char>
    decreases n,
{
    if n < 10 {
        seq![digit(n)]
    } else {
        decimal(n / 10).push(digit(n % 10))
    }
}

fn digit_char(d: usize) -> (c: char)
    requires
        d < 10,
    ensures
        c == digit(d as nat),
{
    if d == 0 {
        '0'
    } else if d == 1 {
        '1'
    } else if d == 2 {
        '2'
    } else if d == 3 {
        '3'
    } else if d == 4 {
        '4'
    } else if d == 5 {
        '5'
    } else if d == 6 {
        '6'
    } else if d == 7 {
        '7'
    } else if d == 8 {
        '8'
    } else {
        '9'
    }
}

/// `n` written in decimal.
pub fn decimal_string(n: usize) -> (r: String)
    ensures
        r@ == decimal(n as nat),
    decreases n,
{
    if n < 10 {
        let mut r = String::new();
        push_char(&mut r, digit_char(n));
        proof {
            assert(r@ =~= seq![digit(n as nat)]);
        }
        r
    } else {
        let mut r = decimal_string(n / 10);
        push_char(&mut r, digit_char(n % 10));
        r
    }
}

/// `s` in lower case, as `str::to_lowercase` maps it (Unicode case mapping).
pub uninterp spec fn lowercase(s: Seq<char>) -> Seq<char>;

/// Lower-cases `s` with `str::to_lowercase`. The contract names the result;
/// it does not restate Unicode's case mapping.
#[verifier::external_body]
pub(crate) fn to_lowercase(s: &str) -> (r: String)
    ensures
        r@ == lowercase(s@),
{
    s.to_lowercase()
}

/// Whether `s` begins with `prefix`.
pub fn starts_with(s: &str, prefix: &str) -> (r: bool)
    ensures
        r == (prefix@.len() <= s@.len() && s@.take(prefix@.len() as int) == prefix@),
{
    let n = prefix.unicode_len();
    if n > s.unicode_len() {
        return false;
    }
    let mut i: usize = 0;
    while i < n
        invariant
            n == prefix@.len(),
            n <= s@.len(),
            i <= n,
            forall|j: int| 0 <= j < i ==> s@[j] == prefix@[j],
        decreases n - i,
    {
        if s.get_char(i) != prefix.get_char(i) {
            proof {
                assert(s@.take(n as int)[i as int] != prefix@[i as int]);
            }
            return false;
        }
        i += 1;
    }
    proof {
        assert(s@.take(n as int) =~= prefix@);
    }
    true
}

/// `s` with every space replaced by `-`.
pub open spec fn spaces_to_dashes(s: Seq<char>) -> Seq<char> {
    s.map_values(|c: char| if c == ' ' { '-' } else { c })
}

/// Replaces every space in `s` by `-`.
pub fn replace_spaces(s: &str) -> (r: String)
    ensures
        r@ == spaces_to_dashes(s@),
{
    let n = s.unicode_len();
    let mut r = String::new();
    let mut i: usize = 0;
    while i < n
        invariant
            n == s@.len(),
            i <= n,
            r@ == spaces_to_dashes(s@.take(i as int)),
        decreases n - i,
    {
        let c = s.get_char(i);
        push_char(&mut r, if c == ' ' { '-' } else { c });
        proof {
            assert(spaces_to_dashes(s@.take(i as int + 1)) =~= spaces_to_dashes(s@.take(i as int)).push(
                if c == ' ' { '-' } else { c },
            ));
        }
        i += 1;
    }
    proof {
        assert(s@.take(n as int) =~= s@);
    }
    r
}

} // verus!
