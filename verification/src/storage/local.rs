//! Entries kept as markdown files under `<base>/src/content/<type>/`.
//! This module holds what the local store computes: paths, slugs, the
//! order of listings, and the parsing and writing of entry files.
use vstd::prelude::*;
use crate::editor::buffer::{law_lines_roundtrip, law_text_roundtrip, no_crlf};
use crate::editor::frontmatter::{
    extract_frontmatter, first_fence_from, frontmatter_text, has_frontmatter, is_fence,
    lemma_object_members, line_is_fence, members_of, msg_expected_object, serialize_frontmatter,
    yaml_value,
};
use crate::json::{Json, JsonValue};
use crate::models::{dir_name_of, ContentData, ContentType, EntryInfo};
use crate::text::{
    concat, is_ws, join_lines, join_with_newlines, lemma_text_line, lemma_text_lines_append,
    lemma_trim_end_at, lemma_trim_id, lemma_trim_start_at, lemma_trimmed_ends, lines_of,
    push_char, split_newlines, str_eq, strip_cr, substring, text_lines, trim, trim_str,
};

verus! {

/// `base` joined with the relative path `part`, as `Path::join` joins them:
/// a separator goes between unless `base` is empty or already ends in one.
pub open spec fn path_join(base: Seq<char>, part: Seq<char>) -> Seq<char> {
    if base.len() == 0 || base.last() == '/' {
        base + part
    } else {
        base + seq!['/'] + part
    }
}

/// The directory holding the entries of a content type.
pub open spec fn content_dir_of(base: Seq<char>, ct: ContentType) -> Seq<char> {
    path_join(path_join(path_join(base, "src"@), "content"@), dir_name_of(ct))
}

fn join_path(base: &str, part: &str) -> (r: String)
    ensures
        r@ == path_join(base@, part@),
{
    let n = base.unicode_len();
    if n == 0 || base.get_char(n - 1) == '/' {
        concat(base, part)
    } else {
        let mut r = String::from_str(base);
        push_char(&mut r, '/');
        r.append(part);
        r
    }
}

/// A store of entries under a base directory.
pub struct LocalStorage {
    base_path: String,
}

impl LocalStorage {
    pub closed spec fn base(&self) -> Seq<char> {
        self.base_path@
    }

    pub fn new(base_path: &str) -> (r: Self)
        ensures
            r.base() == base_path@,
    {
        LocalStorage { base_path: String::from_str(base_path) }
    }

    /// The directory holding the entries of `content_type`.
    pub fn content_dir(&self, content_type: &ContentType) -> (r: String)
        ensures
            r@ == content_dir_of(self.base(), *content_type),
    {
        let src = join_path(self.base_path.as_str(), "src");
        let content = join_path(src.as_str(), "content");
        join_path(content.as_str(), content_type.dir_name())
    }
}

/// Index of the first `c` in `s` at or after `i`, or the length if none.
pub open spec fn find_from(s: Seq<char>, c: char, i: int) -> int
    decreases s.len() - i,
{
    if i < 0 || i >= s.len() {
        s.len() as int
    } else if s[i] == c {
        i
    } else {
        find_from(s, c, i + 1)
    }
}

/// `s` split around its first `c`, as `str::split_once` splits it.
pub open spec fn split_at_first(s: Seq<char>, c: char) -> Option<(Seq<char>, Seq<char>)> {
    let i = find_from(s, c, 0);
    if i < s.len() {
        Some((s.take(i), s.skip(i + 1)))
    } else {
        None
    }
}

proof fn lemma_find_from(s: Seq<char>, c: char, i: int)
    requires
        0 <= i <= s.len(),
    ensures
        i <= find_from(s, c, i) <= s.len(),
        find_from(s, c, i) < s.len() ==> s[find_from(s, c, i)] == c,
    decreases s.len() - i,
{
    if i < s.len() && s[i] != c {
        lemma_find_from(s, c, i + 1);
    }
}

/// `s` split around its first `c`.
pub fn split_once(s: &str, c: char) -> (r: Option<(String, String)>)
    ensures
        match split_at_first(s@, c) {
            Some((a, b)) => r matches Some(p) && p.0@ == a && p.1@ == b,
            None => r is None,
        },
{
    let n = s.unicode_len();
    let mut i: usize = 0;
    while i < n && s.get_char(i) != c
        invariant
            n == s@.len(),
            i <= n,
            find_from(s@, c, 0) == find_from(s@, c, i as int),
        decreases n - i,
    {
        i += 1;
    }
    if i < n {
        let a = substring(s, 0, i);
        let b = substring(s, i + 1, n);
        proof {
            assert(s@.subrange(0, i as int) =~= s@.take(i as int));
            assert(s@.subrange(i + 1, n as int) =~= s@.skip(i + 1));
        }
        Some((a, b))
    } else {
        None
    }
}

/// `a` comes before `b` in the order of `String`'s `Ord`: lexicographic by
/// code point, which is the order of their UTF-8 bytes.
pub open spec fn seq_lt(a: Seq<char>, b: Seq<char>) -> bool
    decreases a.len(),
{
    if a.len() == 0 {
        b.len() > 0
    } else if b.len() == 0 {
        false
    } else if a[0] != b[0] {
        (a[0] as u32) < (b[0] as u32)
    } else {
        seq_lt(a.drop_first(), b.drop_first())
    }
}

/// Whether `a` comes before `b`.
pub fn str_lt(a: &str, b: &str) -> (r: bool)
    ensures
        r == seq_lt(a@, b@),
{
    let n = a.unicode_len();
    let m = b.unicode_len();
    let mut i: usize = 0;
    proof {
        assert(a@.skip(0) =~= a@);
        assert(b@.skip(0) =~= b@);
    }
    while i < n && i < m && a.get_char(i) == b.get_char(i)
        invariant
            n == a@.len(),
            m == b@.len(),
            i <= n && i <= m,
            seq_lt(a@, b@) == seq_lt(a@.skip(i as int), b@.skip(i as int)),
        decreases n - i,
    {
        proof {
            assert(a@.skip(i as int).drop_first() =~= a@.skip(i as int + 1));
            assert(b@.skip(i as int).drop_first() =~= b@.skip(i as int + 1));
        }
        i += 1;
    }
    if i == n {
        i < m
    } else if i == m {
        false
    } else {
        (a.get_char(i) as u32) < (b.get_char(i) as u32)
    }
}

/// `o` with member `k` set to `v`: replaced where `k` is, else inserted
/// where the key order puts it, as inserting into a `BTreeMap` does.
pub open spec fn insert_member(o: Seq<(Seq<char>, Json)>, k: Seq<char>, v: Json) -> Seq<
    (Seq<char>, Json),
>
    decreases o.len(),
{
    if o.len() == 0 {
        seq![(k, v)]
    } else if o[0].0 == k {
        seq![(k, v)] + o.drop_first()
    } else if seq_lt(k, o[0].0) {
        seq![(k, v)] + o
    } else {
        seq![o[0]] + insert_member(o.drop_first(), k, v)
    }
}

fn insert_member_exec(map: &mut Vec<(String, JsonValue)>, key: String, val: JsonValue)
    ensures
        members_of(*final(map)) == insert_member(members_of(*old(map)), key@, val@),
{
    let ghost o = members_of(*map);
    let ghost k = key@;
    let ghost v = val@;
    let mut i: usize = 0;
    proof {
        assert(o.take(0) + insert_member(o.skip(0), k, v) =~= insert_member(o, k, v)) by {
            assert(o.skip(0) =~= o);
        }
    }
    while i < map.len()
        invariant
            i <= map.len(),
            o == members_of(*map),
            o == members_of(*old(map)),
            k == key@,
            v == val@,
            insert_member(o, k, v) == o.take(i as int) + insert_member(o.skip(i as int), k, v),
        decreases map.len() - i,
    {
        let ghost rest = o.skip(i as int);
        proof {
            assert(rest[0] == o[i as int]);
            assert(rest.drop_first() =~= o.skip(i as int + 1));
        }
        if str_eq(map[i].0.as_str(), key.as_str()) {
            let ghost before = *map;
            map.set(i, (key, val));
            proof {
                assert(members_of(*map) =~= o.take(i as int) + (seq![(k, v)] + rest.drop_first()));
            }
            return ;
        }
        if str_lt(key.as_str(), map[i].0.as_str()) {
            map.insert(i, (key, val));
            proof {
                assert(members_of(*map) =~= o.take(i as int) + (seq![(k, v)] + rest));
            }
            return ;
        }
        proof {
            assert(o.take(i as int) + (seq![rest[0]] + insert_member(rest.drop_first(), k, v)) =~= o.take(
                i as int + 1,
            ) + insert_member(o.skip(i as int + 1), k, v));
        }
        i += 1;
    }
    map.push((key, val));
    proof {
        assert(o.skip(i as int) =~= Seq::<(Seq<char>, Json)>::empty());
        assert(members_of(*map) =~= o.take(i as int) + seq![(k, v)]);
    }
}

/// The members read from raw frontmatter lines: each non-blank line with a
/// colon gives a string member, key and value trimmed; later lines win.
pub open spec fn raw_members(ls: Seq<Seq<char>>) -> Seq<(Seq<char>, Json)>
    decreases ls.len(),
{
    if ls.len() == 0 {
        Seq::empty()
    } else {
        let o = raw_members(ls.drop_last());
        let t = trim(ls.last());
        if t.len() == 0 {
            o
        } else {
            match split_at_first(t, ':') {
                Some((k, v)) => insert_member(o, trim(k), Json::Str(trim(v))),
                None => o,
            }
        }
    }
}

/// Reads raw frontmatter text as an object of strings.
pub fn parse_frontmatter_raw(raw: &str) -> (r: JsonValue)
    ensures
        r@ == Json::Object(raw_members(text_lines(raw@))),
{
    let lines = lines_of(raw);
    let ghost ls = lines@.map_values(|l: String| l@);
    let mut map: Vec<(String, JsonValue)> = Vec::new();
    let mut i: usize = 0;
    proof {
        assert(members_of(map) =~= raw_members(ls.take(0)));
    }
    while i < lines.len()
        invariant
            i <= lines.len(),
            ls == lines@.map_values(|l: String| l@),
            members_of(map) == raw_members(ls.take(i as int)),
        decreases lines.len() - i,
    {
        proof {
            assert(ls.take(i as int + 1).drop_last() =~= ls.take(i as int));
            assert(ls.take(i as int + 1).last() == lines[i as int]@);
        }
        let line = trim_str(lines[i].as_str());
        if line.unicode_len() > 0 {
            if let Some((key, val)) = split_once(line.as_str(), ':') {
                let key = trim_str(key.as_str());
                let val = trim_str(val.as_str());
                insert_member_exec(&mut map, key, JsonValue::String(val));
            }
        }
        i += 1;
    }
    proof {
        assert(ls.take(lines.len() as int) =~= ls);
        lemma_object_members(map);
    }
    JsonValue::Object(map)
}

/// The frontmatter and body of an entry file's text: the fenced block read
/// as strings and the lines after it, or no frontmatter and all the text.
pub open spec fn content_of(text: Seq<char>) -> (Json, Seq<char>) {
    let ls = text_lines(text);
    if has_frontmatter(ls) {
        let end = first_fence_from(ls, 1);
        (
            Json::Object(raw_members(text_lines(join_lines(ls.subrange(1, end))))),
            if end + 1 < ls.len() {
                join_lines(ls.skip(end + 1))
            } else {
                Seq::<char>::empty()
            },
        )
    } else {
        (Json::Object(Seq::empty()), text)
    }
}

/// Splits an entry file's text into its frontmatter and body.
pub fn content_from_text(text: &str) -> (r: ContentData)
    ensures
        (r.frontmatter@, r.body@) == content_of(text@),
{
    let lines = lines_of(text);
    let ghost ls = lines@.map_values(|l: String| l@);
    match extract_frontmatter(lines.as_slice()) {
        Some(block) => {
            let fm = parse_frontmatter_raw(block.raw.as_str());
            proof {
                assert(ls.len() == lines.len());
            }
            let body_start = block.end_line + 1;
            let body = if body_start < lines.len() {
                let rest = vstd::slice::slice_subrange(lines.as_slice(), body_start, lines.len());
                proof {
                    assert(rest@.map_values(|l: String| l@) =~= ls.skip(body_start as int));
                }
                join_with_newlines(rest)
            } else {
                String::new()
            };
            ContentData { frontmatter: fm, body }
        },
        None => {
            let empty: Vec<(String, JsonValue)> = Vec::new();
            proof {
                lemma_object_members(empty);
                assert(members_of(empty) =~= Seq::<(Seq<char>, Json)>::empty());
            }
            ContentData { frontmatter: JsonValue::Object(empty), body: String::from_str(text) }
        },
    }
}

/// The text of an entry file: the frontmatter between fences, a blank line,
/// and the body. Frontmatter that is not an object is refused.
pub fn entry_file_text(frontmatter: &JsonValue, body: &str) -> (r: Result<String, String>)
    ensures
        match frontmatter@ {
            Json::Object(o) => r matches Ok(s) && s@ == "---\n"@ + frontmatter_text(o) + "---\n\n"@
                + body@,
            _ => r matches Err(e) && e@ == msg_expected_object(),
        },
{
    let fm_text = match serialize_frontmatter(frontmatter) {
        Ok(t) => t,
        Err(e) => {
            return Err(e);
        },
    };
    let mut out = String::from_str("---\n");
    out.append(fm_text.as_str());
    out.append("---\n\n");
    out.append(body);
    Ok(out)
}

/// No line break in `s`.
pub open spec fn one_line(s: Seq<char>) -> bool {
    forall|j: int| 0 <= j < s.len() ==> #[trigger] s[j] != '\n'
}

/// A frontmatter member that reads back as it was written: a string value
/// and a nonempty key, neither with whitespace at its ends nor a line
/// break in it, and no colon in the key.
pub open spec fn plain_member(m: (Seq<char>, Json)) -> bool {
    &&& m.1 matches Json::Str(v) && trim(v) == v && one_line(v)
    &&& m.0.len() > 0 && trim(m.0) == m.0 && one_line(m.0)
    &&& forall|j: int| 0 <= j < m.0.len() ==> #[trigger] m.0[j] != ':'
}

/// Frontmatter that reads back as it was written: plain members whose keys
/// come in increasing order, as the keys of a JSON object read by
/// `serde_json` do.
pub open spec fn plain_frontmatter(o: Seq<(Seq<char>, Json)>) -> bool {
    &&& forall|i: int| 0 <= i < o.len() ==> plain_member(#[trigger] o[i])
    &&& forall|i: int, j: int| 0 <= i < j < o.len() ==> seq_lt(#[trigger] o[i].0, #[trigger] o[j].0)
}

/// The line written for a member.
pub open spec fn member_text(m: (Seq<char>, Json)) -> Seq<char> {
    m.0 + seq![':', ' '] + yaml_value(m.1)
}

/// The body read back from an entry file written with `body`: the blank
/// line after the closing fence comes back as a leading newline.
pub open spec fn body_read_back(body: Seq<char>) -> Seq<char> {
    if body.len() == 0 {
        body
    } else {
        seq!['\n'] + body
    }
}

proof fn lemma_find_first(s: Seq<char>, c: char, i: int, j: int)
    requires
        0 <= i <= j < s.len(),
        s[j] == c,
        forall|t: int| i <= t < j ==> #[trigger] s[t] != c,
    ensures
        find_from(s, c, i) == j,
    decreases j - i,
{
    if i < j {
        lemma_find_first(s, c, i + 1, j);
    }
}

proof fn lemma_fence_first(ls: Seq<Seq<char>>, i: int, j: int)
    requires
        0 <= i <= j < ls.len(),
        is_fence(ls[j]),
        forall|t: int| i <= t < j ==> !is_fence(#[trigger] ls[t]),
    ensures
        first_fence_from(ls, i) == j,
    decreases j - i,
{
    if i < j {
        lemma_fence_first(ls, i + 1, j);
    }
}

/// The line of a plain member is one line, is no fence, and reads back as
/// the member's key and value.
proof fn lemma_member_line(m: (Seq<char>, Json))
    requires
        plain_member(m),
    ensures
        one_line(member_text(m)),
        member_text(m).len() > 0 && member_text(m).last() != '\r',
        !is_fence(member_text(m)),
        trim(member_text(m)).len() > 0,
        split_at_first(trim(member_text(m)), ':') matches Some((k, w)) && trim(k) == m.0
            && Json::Str(trim(w)) == m.1,
{
    let k = m.0;
    let v = match m.1 {
        Json::Str(v) => v,
        _ => Seq::<char>::empty(),
    };
    let l = member_text(m);
    let n = k.len() as int;
    assert(l =~= k + seq![':', ' '] + v);
    assert(l[n] == ':');
    assert(l[n + 1] == ' ');
    assert(forall|j: int| 0 <= j < n ==> l[j] == #[trigger] k[j]);
    assert(forall|j: int| 0 <= j < v.len() ==> l[n + 2 + j] == #[trigger] v[j]);
    assert(one_line(l)) by {
        assert forall|j: int| 0 <= j < l.len() implies #[trigger] l[j] != '\n' by {
            if j < n {
                assert(l[j] == k[j]);
            } else if j >= n + 2 {
                assert(l[j] == v[j - n - 2]);
            }
        }
    }
    lemma_trimmed_ends(k);
    assert(forall|t: int| 0 <= t < n ==> #[trigger] l[t] != ':') by {
        assert forall|t: int| 0 <= t < n implies #[trigger] l[t] != ':' by {
            assert(l[t] == k[t]);
        }
    }
    let sp = seq![' '] + v;
    if v.len() > 0 {
        lemma_trimmed_ends(v);
        assert(l.last() == v.last());
        lemma_trim_id(l);
        lemma_find_first(l, ':', 0, n);
        assert(l.take(n) =~= k);
        assert(l.skip(n + 1) =~= sp);
        lemma_trim_start_at(sp, 1);
        assert(sp.skip(1) =~= v);
        lemma_trim_start_at(v, 0);
        assert(v.skip(0) =~= v);
        assert(trim(sp) == v);
        assert(split_at_first(trim(l), ':') == Some((k, sp)));
    } else {
        assert(l =~= k + seq![':', ' ']);
        lemma_trim_start_at(l, 0);
        assert(l.skip(0) =~= l);
        lemma_trim_end_at(l, n + 1);
        let t = l.take(n + 1);
        assert(trim(l) == t);
        assert(t[n] == ':');
        assert(forall|j: int| 0 <= j < n ==> t[j] == #[trigger] l[j]);
        lemma_find_first(t, ':', 0, n);
        assert(t.take(n) =~= k);
        assert(t.skip(n + 1) =~= Seq::<char>::empty());
        assert(trim(Seq::<char>::empty()) =~= Seq::<char>::empty());
        assert(split_at_first(trim(l), ':') == Some((k, Seq::<char>::empty())));
        assert(v =~= Seq::<char>::empty());
        assert(Json::Str(trim(Seq::<char>::empty())) == m.1);
    }
    let tl = trim(l);
    assert(tl.len() > n && tl[n] == ':');
    if is_fence(l) {
        assert(tl =~= seq!['-', '-', '-']);
        assert(false);
    }
}

/// The lines of the frontmatter text of plain members are their lines.
proof fn lemma_frontmatter_lines(o: Seq<(Seq<char>, Json)>)
    requires
        forall|i: int| 0 <= i < o.len() ==> plain_member(#[trigger] o[i]),
    ensures
        text_lines(frontmatter_text(o)) == Seq::new(o.len(), |i: int| member_text(o[i])),
        frontmatter_text(o).len() == 0 || frontmatter_text(o).last() == '\n',
    decreases o.len(),
{
    if o.len() == 0 {
        let e = Seq::<char>::empty();
        assert(split_newlines(e) =~= seq![e]);
        assert(text_lines(e) =~= Seq::<Seq<char>>::empty());
        assert(Seq::new(o.len(), |i: int| member_text(o[i])) =~= Seq::<Seq<char>>::empty());
    } else {
        let o0 = o.drop_last();
        assert(forall|i: int| 0 <= i < o0.len() ==> #[trigger] o0[i] == o[i]);
        lemma_frontmatter_lines(o0);
        let l = member_text(o.last());
        lemma_member_line(o.last());
        lemma_text_line(l);
        let f0 = frontmatter_text(o0);
        assert(frontmatter_text(o) =~= f0 + (l + seq!['\n']));
        lemma_text_lines_append(f0, l + seq!['\n']);
        assert(Seq::new(o.len(), |i: int| member_text(o[i])) =~= Seq::new(
            o0.len(),
            |i: int| member_text(o0[i]),
        ) + seq![l]);
    }
}

/// Setting a key greater than every key of `o` appends it.
proof fn lemma_insert_last(o: Seq<(Seq<char>, Json)>, k: Seq<char>, v: Json)
    requires
        forall|i: int| 0 <= i < o.len() ==> seq_lt(#[trigger] o[i].0, k),
    ensures
        insert_member(o, k, v) == o.push((k, v)),
    decreases o.len(),
{
    if o.len() > 0 {
        lemma_seq_lt_irrefl(k);
        assert(seq_lt(o[0].0, k));
        if seq_lt(k, o[0].0) {
            lemma_seq_lt_trans(k, o[0].0, k);
        }
        let r = o.drop_first();
        assert forall|i: int| 0 <= i < r.len() implies seq_lt(#[trigger] r[i].0, k) by {
            assert(r[i] == o[i + 1]);
        }
        lemma_insert_last(r, k, v);
        assert(seq![o[0]] + r.push((k, v)) =~= o.push((k, v)));
    }
}

/// Reading back the lines of plain frontmatter gives the frontmatter.
proof fn lemma_raw_members_plain(o: Seq<(Seq<char>, Json)>)
    requires
        plain_frontmatter(o),
    ensures
        raw_members(Seq::new(o.len(), |i: int| member_text(o[i]))) == o,
    decreases o.len(),
{
    let ls = Seq::new(o.len(), |i: int| member_text(o[i]));
    if o.len() == 0 {
        assert(o =~= Seq::<(Seq<char>, Json)>::empty());
    } else {
        let o0 = o.drop_last();
        assert(forall|i: int| 0 <= i < o0.len() ==> #[trigger] o0[i] == o[i]);
        assert(plain_frontmatter(o0)) by {
            assert forall|i: int, j: int| 0 <= i < j < o0.len() implies seq_lt(
                #[trigger] o0[i].0,
                #[trigger] o0[j].0,
            ) by {
                assert(o0[i] == o[i] && o0[j] == o[j]);
            }
        }
        lemma_raw_members_plain(o0);
        assert(ls.drop_last() =~= Seq::new(o0.len(), |i: int| member_text(o0[i])));
        lemma_member_line(o.last());
        assert(forall|i: int| 0 <= i < o0.len() ==> seq_lt(#[trigger] o0[i].0, o.last().0)) by {
            assert forall|i: int| 0 <= i < o0.len() implies seq_lt(#[trigger] o0[i].0, o.last().0) by {
                assert(o0[i] == o[i]);
                assert(seq_lt(o[i].0, o[o.len() - 1].0));
            }
        }
        lemma_insert_last(o0, o.last().0, o.last().1);
        assert(o0.push((o.last().0, o.last().1)) =~= o);
    }
}

/// Joining a line in front of lines.
proof fn lemma_join_front(e: Seq<char>, ls: Seq<Seq<char>>)
    ensures
        join_lines(seq![e] + ls) == if ls.len() == 0 {
            e
        } else {
            e + seq!['\n'] + join_lines(ls)
        },
    decreases ls.len(),
{
    let s = seq![e] + ls;
    if ls.len() == 0 {
        assert(s =~= seq![e]);
    } else if ls.len() == 1 {
        assert(s.drop_last() =~= seq![e]);
        assert(join_lines(s.drop_last()) == e);
        assert(s.last() == ls[0]);
        assert(join_lines(s) =~= e + seq!['\n'] + join_lines(ls));
    } else {
        lemma_join_front(e, ls.drop_last());
        assert(s.drop_last() =~= seq![e] + ls.drop_last());
        assert(s.last() == ls.last());
        assert(join_lines(s) == join_lines(s.drop_last()) + seq!['\n'] + s.last());
        assert(join_lines(s) =~= e + seq!['\n'] + join_lines(ls));
    }
}

/// An entry file written with plain frontmatter reads back as that
/// frontmatter, and its body as the body written after the blank line
/// that follows the closing fence (see `body_read_back`). A body ending in
/// a line break, or holding a `\r\n`, loses that break on the way.
pub proof fn law_entry_file_roundtrip(o: Seq<(Seq<char>, Json)>, body: Seq<char>)
    requires
        plain_frontmatter(o),
        no_crlf(body),
        body.len() == 0 || body.last() != '\n',
    ensures
        content_of("---\n"@ + frontmatter_text(o) + "---\n\n"@ + body) == (
            Json::Object(o),
            body_read_back(body),
        ),
{
    reveal_strlit("---\n");
    reveal_strlit("---\n\n");
    let e = Seq::<char>::empty();
    let fence = seq!['-', '-', '-'];
    let pf = fence + seq!['\n'];
    let nl = e + seq!['\n'];
    let f = frontmatter_text(o);
    let t = "---\n"@ + f + "---\n\n"@ + body;
    assert(t =~= pf + (f + (pf + (nl + body))));
    let m = Seq::new(o.len(), |i: int| member_text(o[i]));
    lemma_frontmatter_lines(o);
    lemma_text_line(fence);
    lemma_text_line(e);
    lemma_text_lines_append(nl, body);
    lemma_text_lines_append(pf, nl + body);
    lemma_text_lines_append(f, pf + (nl + body));
    lemma_text_lines_append(pf, f + (pf + (nl + body)));
    let tb = text_lines(body);
    let ls = text_lines(t);
    let n = o.len() as int;
    assert(ls =~= seq![fence] + m + seq![fence] + seq![e] + tb);
    assert(is_fence(fence)) by {
        lemma_trim_id(fence);
    }
    assert forall|i: int| 1 <= i < n + 1 implies !is_fence(#[trigger] ls[i]) by {
        assert(ls[i] == m[i - 1]);
        lemma_member_line(o[i - 1]);
    }
    lemma_fence_first(ls, 1, n + 1);
    assert(has_frontmatter(ls));
    assert(ls.subrange(1, n + 1) =~= m);
    if n == 0 {
        assert(m =~= Seq::<Seq<char>>::empty());
        assert(split_newlines(e) =~= seq![e]);
        assert(text_lines(join_lines(m)) =~= m);
    } else {
        assert forall|i: int, j: int| 0 <= i < m.len() && 0 <= j < m[i].len() implies #[trigger] m[i][j]
            != '\n' by {
            lemma_member_line(o[i]);
        }
        assert forall|i: int| 0 <= i < m.len() - 1 implies #[trigger] strip_cr(m[i]) == m[i] by {
            lemma_member_line(o[i]);
        }
        lemma_member_line(o[n - 1]);
        law_lines_roundtrip(m);
        assert(text_lines(join_lines(m)) == m);
    }
    lemma_raw_members_plain(o);
    assert(ls.skip(n + 2) =~= seq![e] + tb);
    lemma_join_front(e, tb);
    law_text_roundtrip(body);
    if body.len() == 0 {
        assert(split_newlines(body) =~= seq![e]);
        assert(tb =~= Seq::<Seq<char>>::empty());
    } else {
        assert(tb.len() > 0);
        assert(e + seq!['\n'] + join_lines(tb) =~= seq!['\n'] + body);
    }
}

/// The order of keys and slugs is transitive.
pub proof fn lemma_seq_lt_trans(a: Seq<char>, b: Seq<char>, c: Seq<char>)
    requires
        seq_lt(a, b),
        seq_lt(b, c),
    ensures
        seq_lt(a, c),
    decreases a.len(),
{
    if a.len() > 0 && b.len() > 0 && c.len() > 0 && a[0] == b[0] && b[0] == c[0] {
        lemma_seq_lt_trans(a.drop_first(), b.drop_first(), c.drop_first());
    }
}

/// The order of keys and slugs is irreflexive.
pub proof fn lemma_seq_lt_irrefl(a: Seq<char>)
    ensures
        !seq_lt(a, a),
    decreases a.len(),
{
    if a.len() > 0 {
        lemma_seq_lt_irrefl(a.drop_first());
    }
}

/// What the browser shows of an entry, read from one frontmatter line:
/// `title`, `date` or `description` before the first colon sets that field.
pub open spec fn meta_apply(m: (Seq<char>, Seq<char>, Seq<char>), line: Seq<char>) -> (
    Seq<char>,
    Seq<char>,
    Seq<char>,
) {
    match split_at_first(line, ':') {
        Some((k, v)) => {
            let k = trim(k);
            let v = trim(v);
            if k == "title"@ {
                (v, m.1, m.2)
            } else if k == "date"@ {
                (m.0, v, m.2)
            } else if k == "description"@ {
                (m.0, m.1, v)
            } else {
                m
            }
        },
        None => m,
    }
}

pub open spec fn meta_of(ls: Seq<Seq<char>>) -> (Seq<char>, Seq<char>, Seq<char>)
    decreases ls.len(),
{
    if ls.len() == 0 {
        (Seq::empty(), Seq::empty(), Seq::empty())
    } else {
        meta_apply(meta_of(ls.drop_last()), ls.last())
    }
}

/// Title, date and description of an entry file, from the lines of its
/// frontmatter; empty when the file has fewer than three lines or does
/// not open with a fence.
pub open spec fn entry_metadata(text: Seq<char>) -> (Seq<char>, Seq<char>, Seq<char>) {
    let ls = text_lines(text);
    if ls.len() >= 3 && is_fence(ls[0]) {
        meta_of(ls.subrange(1, first_fence_from(ls, 1)))
    } else {
        (Seq::empty(), Seq::empty(), Seq::empty())
    }
}

/// A file that opens a frontmatter block it never closes, which the
/// metadata reading cannot take.
pub open spec fn unclosed_frontmatter(text: Seq<char>) -> bool {
    let ls = text_lines(text);
    ls.len() >= 3 && is_fence(ls[0]) && first_fence_from(ls, 1) >= ls.len()
}


/// Whether `parse_entry_metadata` can read `text`: it cannot when the text
/// opens a frontmatter block it never closes.
pub fn metadata_readable(text: &str) -> (r: bool)
    ensures
        r == !unclosed_frontmatter(text@),
{
    let lines = lines_of(text);
    let ghost ls = lines@.map_values(|l: String| l@);
    if lines.len() >= 3 && line_is_fence(lines[0].as_str()) {
        let mut end: usize = 1;
        while end < lines.len() && !line_is_fence(lines[end].as_str())
            invariant
                1 <= end <= lines.len(),
                ls == lines@.map_values(|l: String| l@),
                first_fence_from(ls, 1) == first_fence_from(ls, end as int),
            decreases lines.len() - end,
        {
            end += 1;
        }
        end < lines.len()
    } else {
        true
    }
}

/// Reads the title, date and description of an entry file.
pub fn parse_entry_metadata(text: &str) -> (r: (String, String, String))
    requires
        !unclosed_frontmatter(text@),
    ensures
        (r.0@, r.1@, r.2@) == entry_metadata(text@),
{
    let lines = lines_of(text);
    let ghost ls = lines@.map_values(|l: String| l@);
    let mut title = String::new();
    let mut date = String::new();
    let mut desc = String::new();
    if lines.len() >= 3 && line_is_fence(lines[0].as_str()) {
        let mut end: usize = 1;
        while end < lines.len() && !line_is_fence(lines[end].as_str())
            invariant
                1 <= end <= lines.len(),
                ls == lines@.map_values(|l: String| l@),
                first_fence_from(ls, 1) == first_fence_from(ls, end as int),
            decreases lines.len() - end,
        {
            end += 1;
        }
        let mut i: usize = 1;
        proof {
            assert(ls.subrange(1, 1) =~= Seq::<Seq<char>>::empty());
        }
        while i < end
            invariant
                1 <= i <= end < lines.len(),
                end == first_fence_from(ls, 1),
                ls == lines@.map_values(|l: String| l@),
                (title@, date@, desc@) == meta_of(ls.subrange(1, i as int)),
            decreases end - i,
        {
            proof {
                assert(ls.subrange(1, i as int + 1).drop_last() =~= ls.subrange(1, i as int));
                assert(ls.subrange(1, i as int + 1).last() == lines[i as int]@);
            }
            if let Some((k, v)) = split_once(lines[i].as_str(), ':') {
                let k = trim_str(k.as_str());
                let v = trim_str(v.as_str());
                if str_eq(k.as_str(), "title") {
                    title = v;
                } else if str_eq(k.as_str(), "date") {
                    date = v;
                } else if str_eq(k.as_str(), "description") {
                    desc = v;
                }
            }
            i += 1;
        }
    }
    (title, date, desc)
}

/// Index of the last `.` in `s` before position `i`, or -1.
pub open spec fn last_dot_before(s: Seq<char>, i: int) -> int
    decreases i,
{
    if i <= 0 || i > s.len() {
        -1
    } else if s[i - 1] == '.' {
        i - 1
    } else {
        last_dot_before(s, i - 1)
    }
}

/// A file name's stem and extension, as `Path::file_stem` and
/// `Path::extension` give them: split at the last dot, unless that dot
/// starts the name or the name is `..`.
pub open spec fn stem_and_ext(name: Seq<char>) -> (Seq<char>, Option<Seq<char>>) {
    let i = last_dot_before(name, name.len() as int);
    if name == ".."@ || i <= 0 {
        (name, None)
    } else {
        (name.take(i), Some(name.skip(i + 1)))
    }
}

/// The slug of a markdown entry file: its stem when the extension is `md`
/// or `mdx`; other files are no entries.
pub open spec fn slug_of_file(name: Seq<char>) -> Option<Seq<char>> {
    match stem_and_ext(name).1 {
        Some(e) => if e == "md"@ || e == "mdx"@ {
            Some(stem_and_ext(name).0)
        } else {
            None
        },
        None => None,
    }
}

proof fn lemma_last_dot(s: Seq<char>, i: int)
    requires
        0 <= i <= s.len(),
    ensures
        -1 <= last_dot_before(s, i) < i,
        last_dot_before(s, i) >= 0 ==> s[last_dot_before(s, i)] == '.',
    decreases i,
{
    if i > 0 && s[i - 1] != '.' {
        lemma_last_dot(s, i - 1);
    }
}

/// The slug of the file `name`, if it is a markdown entry.
pub fn entry_slug(name: &str) -> (r: Option<String>)
    ensures
        match slug_of_file(name@) {
            Some(s) => r matches Some(x) && x@ == s,
            None => r is None,
        },
{
    let n = name.unicode_len();
    let mut i: usize = n;
    while i > 0 && name.get_char(i - 1) != '.'
        invariant
            n == name@.len(),
            i <= n,
            last_dot_before(name@, n as int) == last_dot_before(name@, i as int),
        decreases i,
    {
        i -= 1;
    }
    proof {
        lemma_last_dot(name@, n as int);
        reveal_strlit("..");
        reveal_strlit("md");
        reveal_strlit("mdx");
    }
    let dots = "..";
    if str_eq(name, dots) || i <= 1 {
        return None;
    }
    let ext = substring(name, i, n);
    proof {
        assert(name@.subrange(i as int, n as int) =~= name@.skip(i as int));
    }
    if str_eq(ext.as_str(), "md") || str_eq(ext.as_str(), "mdx") {
        let stem = substring(name, 0, i - 1);
        proof {
            assert(name@.subrange(0, i - 1) =~= name@.take(i - 1));
        }
        Some(stem)
    } else {
        None
    }
}

proof fn lemma_empty_multiset(s: Seq<EntryInfo>)
    requires
        s.len() == 0,
    ensures
        s.to_multiset() =~= vstd::multiset::Multiset::empty(),
{
    s.to_multiset_ensures();
    assert forall|a: EntryInfo| s.to_multiset().count(a) == 0 by {
        assert(!s.contains(a));
    }
}

/// The listing order: by slug.
pub open spec fn sorted_by_slug(v: Seq<EntryInfo>) -> bool {
    forall|i: int, j: int| 0 <= i < j < v.len() ==> !seq_lt(#[trigger] v[j].slug@, #[trigger] v[i].slug@)
}

/// The test for entries with slug `s`.
pub open spec fn slug_is(s: Seq<char>) -> spec_fn(EntryInfo) -> bool {
    |x: EntryInfo| x.slug@ == s
}

proof fn lemma_filter_none(v: Seq<EntryInfo>, f: spec_fn(EntryInfo) -> bool)
    requires
        forall|i: int| 0 <= i < v.len() ==> !f(#[trigger] v[i]),
    ensures
        v.filter(f) == Seq::<EntryInfo>::empty(),
    decreases v.len(),
{
    reveal(Seq::filter);
    if v.len() > 0 {
        assert(forall|i: int| 0 <= i < v.len() - 1 ==> #[trigger] v.drop_last()[i] == v[i]);
        lemma_filter_none(v.drop_last(), f);
    }
}

/// Inserting `e` after the entries whose slug does not exceed its own, in
/// an ordered list, puts it last among the entries with its slug.
proof fn lemma_slug_filter_insert(before: Seq<EntryInfo>, pos: int, e: EntryInfo, s: Seq<char>)
    requires
        0 <= pos <= before.len(),
        sorted_by_slug(before),
        pos == before.len() || seq_lt(e.slug@, before[pos].slug@),
    ensures
        before.insert(pos, e).filter(slug_is(s)) == before.filter(slug_is(s)) + seq![e].filter(
            slug_is(s),
        ),
{
    let f = slug_is(s);
    let a = before.take(pos);
    let b = before.skip(pos);
    let one = seq![e];
    let none = Seq::<EntryInfo>::empty();
    assert(before.insert(pos, e) =~= a + (one + b));
    assert(before =~= a + b);
    Seq::filter_distributes_over_add(a, one + b, f);
    Seq::filter_distributes_over_add(one, b, f);
    Seq::filter_distributes_over_add(a, b, f);
    assert(none.filter(f) == none) by {
        reveal(Seq::filter);
    }
    none.lemma_filter_prepend(e, f);
    assert(one + none =~= one);
    if e.slug@ == s {
        assert forall|i: int| 0 <= i < b.len() implies !f(#[trigger] b[i]) by {
            let j = pos + i;
            assert(b[i] == before[j]);
            if before[j].slug@ == s {
                lemma_seq_lt_irrefl(s);
                if j > pos {
                    assert(!seq_lt(before[j].slug@, before[pos].slug@));
                }
            }
        }
        lemma_filter_none(b, f);
        assert(a.filter(f) + (one.filter(f) + b.filter(f)) =~= (a.filter(f) + b.filter(f)) + one.filter(f));
    } else {
        assert(one.filter(f) =~= none);
        assert(a.filter(f) + (one.filter(f) + b.filter(f)) =~= (a.filter(f) + b.filter(f)) + one.filter(f));
    }
}

/// Orders entries by slug, keeping the order of entries with equal slugs.
pub fn sort_entries(entries: Vec<EntryInfo>) -> (r: Vec<EntryInfo>)
    ensures
        sorted_by_slug(r@),
        r@.to_multiset() == entries@.to_multiset(),
        forall|s: Seq<char>| #[trigger] r@.filter(slug_is(s)) == entries@.filter(slug_is(s)),
{
    let mut rest = entries;
    let mut r: Vec<EntryInfo> = Vec::new();
    let ghost orig = rest@;
    proof {
        lemma_empty_multiset(r@);
    }
    proof {
        assert forall|s: Seq<char>| #![trigger orig.filter(slug_is(s))] r@.filter(slug_is(s)) + rest@.filter(
            slug_is(s),
        ) == orig.filter(slug_is(s)) by {
            lemma_filter_none(r@, slug_is(s));
            assert(r@.filter(slug_is(s)) + rest@.filter(slug_is(s)) =~= rest@.filter(slug_is(s)));
        }
    }
    while rest.len() > 0
        invariant
            sorted_by_slug(r@),
            r@.to_multiset().add(rest@.to_multiset()) == orig.to_multiset(),
            forall|s: Seq<char>| #![trigger orig.filter(slug_is(s))] r@.filter(slug_is(s)) + rest@.filter(
                slug_is(s),
            ) == orig.filter(slug_is(s)),
        decreases rest.len(),
    {
        let ghost before_rest = rest@;
        let e = rest.remove(0);
        proof {
            vstd::seq_lib::to_multiset_remove(before_rest, 0);
            assert(before_rest.remove(0).to_multiset() == before_rest.to_multiset().remove(e));
            assert(before_rest.to_multiset().count(e) > 0) by {
                vstd::seq_lib::to_multiset_contains(before_rest, e);
                assert(before_rest.contains(e)) by {
                    assert(before_rest[0] == e);
                }
            }
        }
        let mut pos: usize = 0;
        while pos < r.len() && !str_lt(e.slug.as_str(), r[pos].slug.as_str())
            invariant
                pos <= r.len(),
                forall|j: int| 0 <= j < pos ==> !seq_lt(e.slug@, #[trigger] r@[j].slug@),
            decreases r.len() - pos,
        {
            pos += 1;
        }
        let ghost before = r@;
        r.insert(pos, e);
        proof {
            assert forall|i: int, j: int| 0 <= i < j < r@.len() implies !seq_lt(
                #[trigger] r@[j].slug@,
                #[trigger] r@[i].slug@,
            ) by {
                if j < pos {
                    assert(r@[i] == before[i] && r@[j] == before[j]);
                } else if j == pos {
                    assert(r@[i] == before[i]);
                } else if i < pos {
                    assert(r@[i] == before[i] && r@[j] == before[j - 1]);
                    if seq_lt(before[j - 1].slug@, before[i].slug@) {
                    }
                } else if i == pos {
                    assert(r@[j] == before[j - 1]);
                    if seq_lt(before[j - 1].slug@, e.slug@) {
                        if j - 1 > pos {
                            assert(!seq_lt(before[j - 1].slug@, before[pos as int].slug@));
                        }
                        lemma_seq_lt_trans(before[j - 1].slug@, e.slug@, before[pos as int].slug@);
                        if j - 1 == pos {
                            lemma_seq_lt_irrefl(before[pos as int].slug@);
                        }
                    }
                } else {
                    assert(r@[i] == before[i - 1] && r@[j] == before[j - 1]);
                }
            }
            vstd::seq_lib::to_multiset_insert(before, pos as int, e);
            assert(r@ == before.insert(pos as int, e));
            assert(r@.to_multiset() == before.to_multiset().insert(e));
            assert(r@.to_multiset().add(rest@.to_multiset()) =~= orig.to_multiset());
            assert(before_rest =~= seq![e] + rest@);
            assert forall|s: Seq<char>| #![trigger orig.filter(slug_is(s))] r@.filter(slug_is(s))
                + rest@.filter(slug_is(s)) == orig.filter(slug_is(s)) by {
                let f = slug_is(s);
                lemma_slug_filter_insert(before, pos as int, e, s);
                Seq::filter_distributes_over_add(seq![e], rest@, f);
                assert(before.filter(f) + before_rest.filter(f) == orig.filter(f));
                assert(r@.filter(f) + rest@.filter(f) =~= before.filter(f) + before_rest.filter(f));
            }
        }
    }
    proof {
        lemma_empty_multiset(rest@);
        assert(r@.to_multiset() =~= orig.to_multiset());
        assert forall|s: Seq<char>| #[trigger] r@.filter(slug_is(s)) == entries@.filter(slug_is(s)) by {
            lemma_filter_none(rest@, slug_is(s));
            assert(orig.filter(slug_is(s)) == r@.filter(slug_is(s)) + rest@.filter(slug_is(s)));
            assert(r@.filter(slug_is(s)) + rest@.filter(slug_is(s)) =~= r@.filter(slug_is(s)));
        }
    }
    r
}

} // verus!
