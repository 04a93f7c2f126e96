//! Frontmatter: the block of `key: value` lines between two `---` fences at
//! the top of an entry. Finding it, writing a JSON value out as such lines,
//! checking the fields an entry needs, and building the value for a post or
//! a project.
use vstd::prelude::*;
use crate::json::{Json, JsonValue};
use crate::models::{BlogPost, Project};
use crate::text::{
    decimal, decimal_string, join_lines, join_with_newlines, push_char, str_eq, trim, trim_str,
};

verus! {

#[derive(Debug, Clone)]
pub struct FrontmatterBlock {
    pub raw: String,
    pub start_line: usize,
    pub end_line: usize,
}

impl FrontmatterBlock {
    pub fn new() -> (r: Self)
        ensures
            r.raw@ == Seq::<char>::empty(),
            r.start_line == 0,
            r.end_line == 0,
    {
        FrontmatterBlock { raw: String::new(), start_line: 0, end_line: 0 }
    }
}

/// A line that is `---`, surrounding whitespace aside.
pub open spec fn is_fence(l: Seq<char>) -> bool {
    trim(l) == seq!['-', '-', '-']
}

/// Index of the first fence at or after `i`, or the number of lines if none.
pub open spec fn first_fence_from(lines: Seq<Seq<char>>, i: int) -> int
    decreases lines.len() - i,
{
    if i < 0 || i >= lines.len() {
        lines.len() as int
    } else if is_fence(lines[i]) {
        i
    } else {
        first_fence_from(lines, i + 1)
    }
}

/// The lines open with a fence and a second fence closes the block.
pub open spec fn has_frontmatter(lines: Seq<Seq<char>>) -> bool {
    lines.len() > 0 && is_fence(lines[0]) && first_fence_from(lines, 1) < lines.len()
}

/// Whether `l` is a fence.
pub fn line_is_fence(l: &str) -> (r: bool)
    ensures
        r == is_fence(l@),
{
    let t = trim_str(l);
    let fence = "---";
    proof {
        reveal_strlit("---");
        assert(fence@ =~= seq!['-', '-', '-']);
    }
    str_eq(t.as_str(), fence)
}

/// Finds the frontmatter block at the top of `lines`: its text is the lines
/// between the opening fence (line 0) and the first closing fence.
pub fn extract_frontmatter(lines: &[String]) -> (r: Option<FrontmatterBlock>)
    ensures
        ({
            let v = lines@.map_values(|l: String| l@);
            match r {
                None => !has_frontmatter(v),
                Some(b) => {
                    &&& has_frontmatter(v)
                    &&& b.start_line == 0
                    &&& b.end_line == first_fence_from(v, 1)
                    &&& b.raw@ == join_lines(v.subrange(1, b.end_line as int))
                },
            }
        }),
{
    let ghost v = lines@.map_values(|l: String| l@);
    if lines.len() == 0 || !line_is_fence(lines[0].as_str()) {
        return None;
    }
    let mut end: usize = 1;
    while end < lines.len() && !line_is_fence(lines[end].as_str())
        invariant
            1 <= end <= lines.len(),
            v == lines@.map_values(|l: String| l@),
            first_fence_from(v, 1) == first_fence_from(v, end as int),
        decreases lines.len() - end,
    {
        end += 1;
    }
    if end >= lines.len() {
        return None;
    }
    let inner = vstd::slice::slice_subrange(lines, 1, end);
    let raw = join_with_newlines(inner);
    proof {
        assert(inner@.map_values(|l: String| l@) =~= v.subrange(1, end as int));
    }
    Some(FrontmatterBlock { raw, start_line: 0, end_line: end })
}

pub open spec fn bool_text(b: bool) -> Seq<char> {
    if b {
        seq!['t', 'r', 'u', 'e']
    } else {
        seq!['f', 'a', 'l', 's', 'e']
    }
}

/// A JSON value as a YAML flow value: strings bare, arrays as `[a, b]`,
/// objects as `{k: v}`, null as `~`.
pub open spec fn yaml_value(v: Json) -> Seq<char>
    decreases v,
{
    match v {
        Json::Str(s) => s,
        Json::Bool(b) => bool_text(b),
        Json::Number(n) => n,
        Json::Array(a) => if a.len() == 0 {
            seq!['[', ']']
        } else {
            seq!['['] + yaml_items(a) + seq![']']
        },
        Json::Object(o) => seq!['{'] + yaml_members(o) + seq!['}'],
        Json::Null => seq!['~'],
    }
}

/// The YAML of the items, separated by `, `.
pub open spec fn yaml_items(a: Seq<Json>) -> Seq<char>
    decreases a,
{
    if a.len() == 0 {
        Seq::<char>::empty()
    } else if a.len() == 1 {
        yaml_value(a[0])
    } else {
        yaml_items(a.subrange(0, a.len() - 1)) + seq![',', ' '] + yaml_value(a[a.len() - 1])
    }
}

/// The members as `key: value`, separated by `, `.
pub open spec fn yaml_members(o: Seq<(Seq<char>, Json)>) -> Seq<char>
    decreases o,
{
    if o.len() == 0 {
        Seq::<char>::empty()
    } else if o.len() == 1 {
        o[0].0 + seq![':', ' '] + yaml_value(o[0].1)
    } else {
        yaml_members(o.subrange(0, o.len() - 1)) + seq![',', ' '] + o[o.len() - 1].0 + seq![
            ':',
            ' ',
        ] + yaml_value(o[o.len() - 1].1)
    }
}

/// `true` or `false`.
pub fn bool_string(b: bool) -> (r: String)
    ensures
        r@ == bool_text(b),
{
    if b {
        let t = "true";
        proof {
            reveal_strlit("true");
            assert(t@ =~= bool_text(b));
        }
        String::from_str(t)
    } else {
        let t = "false";
        proof {
            reveal_strlit("false");
            assert(t@ =~= bool_text(b));
        }
        String::from_str(t)
    }
}

fn append_sep(out: &mut String)
    ensures
        final(out)@ == old(out)@ + seq![',', ' '],
{
    push_char(out, ',');
    push_char(out, ' ');
    proof {
        assert(final(out)@ =~= old(out)@ + seq![',', ' ']);
    }
}

/// A JSON value as a YAML flow value; never fails.
fn json_val_to_yaml(val: &JsonValue) -> (r: Result<String, String>)
    ensures
        r matches Ok(s) && s@ == yaml_value(val@),
    decreases val,
{
    match val {
        JsonValue::String(s) => Ok(s.clone()),
        JsonValue::Bool(b) => Ok(bool_string(*b)),
        JsonValue::Number(n) => Ok(n.clone()),
        JsonValue::Array(arr) => {
            let ghost a = match val@ {
                Json::Array(a) => a,
                _ => Seq::<Json>::empty(),
            };
            if arr.len() == 0 {
                let mut out = String::new();
                push_char(&mut out, '[');
                push_char(&mut out, ']');
                proof {
                    assert(out@ =~= seq!['[', ']']);
                }
                return Ok(out);
            }
            let mut items = String::new();
            let mut i: usize = 0;
            while i < arr.len()
                invariant
                    i <= arr.len(),
                    a.len() == arr.len(),
                    decreases_to!(*val => *arr),
                    forall|j: int| 0 <= j < arr.len() ==> #[trigger] a[j] == arr[j]@,
                    items@ == yaml_items(a.subrange(0, i as int)),
                decreases arr.len() - i,
            {
                proof {
                    assert(decreases_to!(*arr => arr@[i as int]));
                }
                let item = json_val_to_yaml(&arr[i]);
                proof {
                    let sub = a.subrange(0, i as int + 1);
                    assert(sub.subrange(0, sub.len() - 1) =~= a.subrange(0, i as int));
                    assert(sub[sub.len() - 1] == arr[i as int]@);
                    if i == 0 {
                        assert(yaml_items(a.subrange(0, 0)) =~= Seq::<char>::empty());
                    }
                }
                if i > 0 {
                    append_sep(&mut items);
                }
                match item {
                    Ok(t) => {
                        items.append(t.as_str());
                    },
                    Err(e) => {
                        return Err(e);
                    },
                }
                proof {
                    if i == 0 {
                        assert(items@ =~= yaml_items(a.subrange(0, 1)));
                    }
                }
                i += 1;
            }
            let mut out = String::new();
            push_char(&mut out, '[');
            out.append(items.as_str());
            push_char(&mut out, ']');
            proof {
                assert(a.subrange(0, arr.len() as int) =~= a);
                assert(out@ =~= seq!['['] + yaml_items(a) + seq![']']);
            }
            Ok(out)
        },
        JsonValue::Object(obj) => {
            let ghost o = match val@ {
                Json::Object(o) => o,
                _ => Seq::<(Seq<char>, Json)>::empty(),
            };
            let mut items = String::new();
            let mut i: usize = 0;
            while i < obj.len()
                invariant
                    i <= obj.len(),
                    o.len() == obj.len(),
                    decreases_to!(*val => *obj),
                    forall|j: int| 0 <= j < obj.len() ==> #[trigger] o[j] == (obj[j].0@, obj[j].1@),
                    items@ == yaml_members(o.subrange(0, i as int)),
                decreases obj.len() - i,
            {
                proof {
                    assert(decreases_to!(*obj => obj@[i as int].1));
                }
                let item = json_val_to_yaml(&obj[i].1);
                proof {
                    let sub = o.subrange(0, i as int + 1);
                    assert(sub.subrange(0, sub.len() - 1) =~= o.subrange(0, i as int));
                    assert(sub[sub.len() - 1] == o[i as int]);
                    if i == 0 {
                        assert(yaml_members(o.subrange(0, 0)) =~= Seq::<char>::empty());
                    }
                }
                if i > 0 {
                    append_sep(&mut items);
                }
                items.append(obj[i].0.as_str());
                push_char(&mut items, ':');
                push_char(&mut items, ' ');
                match item {
                    Ok(t) => {
                        items.append(t.as_str());
                    },
                    Err(e) => {
                        return Err(e);
                    },
                }
                proof {
                    let sub = o.subrange(0, i as int + 1);
                    if i == 0 {
                        assert(items@ =~= yaml_members(sub));
                    } else {
                        assert(items@ =~= yaml_members(sub));
                    }
                }
                i += 1;
            }
            let mut out = String::new();
            push_char(&mut out, '{');
            out.append(items.as_str());
            push_char(&mut out, '}');
            proof {
                assert(o.subrange(0, obj.len() as int) =~= o);
                assert(out@ =~= seq!['{'] + yaml_members(o) + seq!['}']);
            }
            Ok(out)
        },
        JsonValue::Null => {
            let mut out = String::new();
            push_char(&mut out, '~');
            proof {
                assert(out@ =~= seq!['~']);
            }
            Ok(out)
        },
    }
}

/// The message for a frontmatter value that is not an object.
pub open spec fn msg_expected_object() -> Seq<char> {
    "expected object"@
}

/// The members of an object as `(key, YAML of value)` pairs.
pub open spec fn yaml_pairs(o: Seq<(Seq<char>, Json)>) -> Seq<(Seq<char>, Seq<char>)> {
    Seq::new(o.len(), |i: int| (o[i].0, yaml_value(o[i].1)))
}

/// One `key: value` line per member, each ended by a newline.
pub open spec fn frontmatter_text(o: Seq<(Seq<char>, Json)>) -> Seq<char>
    decreases o.len(),
{
    if o.len() == 0 {
        Seq::<char>::empty()
    } else {
        frontmatter_text(o.drop_last()) + o.last().0 + seq![':', ' '] + yaml_value(o.last().1)
            + seq!['\n']
    }
}

fn json_to_yaml_mapping(value: &JsonValue) -> (r: Result<Vec<(String, String)>, String>)
    ensures
        match value@ {
            Json::Object(o) => r matches Ok(p) && p@.map_values(|q: (String, String)| (q.0@, q.1@))
                == yaml_pairs(o),
            _ => r matches Err(e) && e@ == msg_expected_object(),
        },
{
    match value {
        JsonValue::Object(map) => {
            let ghost o = match value@ {
                Json::Object(o) => o,
                _ => Seq::<(Seq<char>, Json)>::empty(),
            };
            let mut pairs: Vec<(String, String)> = Vec::new();
            let mut i: usize = 0;
            while i < map.len()
                invariant
                    i <= map.len(),
                    o.len() == map.len(),
                    forall|j: int| 0 <= j < map.len() ==> #[trigger] o[j] == (map[j].0@, map[j].1@),
                    pairs@.map_values(|q: (String, String)| (q.0@, q.1@)) == yaml_pairs(o).take(
                        i as int,
                    ),
                decreases map.len() - i,
            {
                let yaml_val = match json_val_to_yaml(&map[i].1) {
                    Ok(y) => y,
                    Err(e) => {
                        return Err(e);
                    },
                };
                let ghost old_pairs = pairs@.map_values(|q: (String, String)| (q.0@, q.1@));
                let key = map[i].0.clone();
                proof {
                    assert(key@ == o[i as int].0);
                    assert(yaml_val@ == yaml_pairs(o)[i as int].1);
                }
                pairs.push((key, yaml_val));
                proof {
                    assert(pairs@.map_values(|q: (String, String)| (q.0@, q.1@)) =~= old_pairs.push(
                        (o[i as int].0, yaml_value(o[i as int].1)),
                    ));
                    assert(pairs@.map_values(|q: (String, String)| (q.0@, q.1@)) =~= yaml_pairs(
                        o,
                    ).take(i as int + 1));
                }
                i += 1;
            }
            proof {
                assert(yaml_pairs(o).take(map.len() as int) =~= yaml_pairs(o));
            }
            Ok(pairs)
        },
        _ => Err(String::from_str("expected object")),
    }
}

/// Writes an object out as frontmatter lines, `key: value` each; anything
/// but an object is refused.
pub fn serialize_frontmatter(value: &JsonValue) -> (r: Result<String, String>)
    ensures
        match value@ {
            Json::Object(o) => r matches Ok(s) && s@ == frontmatter_text(o),
            _ => r matches Err(e) && e@ == msg_expected_object(),
        },
{
    let mapping = match json_to_yaml_mapping(value) {
        Ok(m) => m,
        Err(e) => {
            return Err(e);
        },
    };
    let ghost o = match value@ {
        Json::Object(o) => o,
        _ => Seq::<(Seq<char>, Json)>::empty(),
    };
    let mut out = String::new();
    let mut i: usize = 0;
    proof {
        assert(mapping@.map_values(|q: (String, String)| (q.0@, q.1@)).len() == mapping.len());
        assert(o.take(0) =~= Seq::<(Seq<char>, Json)>::empty());
    }
    while i < mapping.len()
        invariant
            i <= mapping.len(),
            o.len() == mapping.len(),
            mapping@.map_values(|q: (String, String)| (q.0@, q.1@)) == yaml_pairs(o),
            out@ == frontmatter_text(o.take(i as int)),
        decreases mapping.len() - i,
    {
        proof {
            assert(o.take(i as int + 1).drop_last() =~= o.take(i as int));
            assert(mapping@.map_values(|q: (String, String)| (q.0@, q.1@))[i as int] == (
            mapping[i as int].0@, mapping[i as int].1@));
        }
        out.append(mapping[i].0.as_str());
        push_char(&mut out, ':');
        push_char(&mut out, ' ');
        out.append(mapping[i].1.as_str());
        push_char(&mut out, '\n');
        proof {
            assert(out@ =~= frontmatter_text(o.take(i as int + 1)));
        }
        i += 1;
    }
    proof {
        assert(o.take(mapping.len() as int) =~= o);
    }
    Ok(out)
}

/// The members of an object as mathematical values.
pub open spec fn members_of(m: Vec<(String, JsonValue)>) -> Seq<(Seq<char>, Json)> {
    Seq::new(m.len() as nat, |i: int| (m[i].0@, m[i].1@))
}

pub proof fn lemma_object_members(m: Vec<(String, JsonValue)>)
    ensures
        JsonValue::Object(m)@ == Json::Object(members_of(m)),
{
    assert(JsonValue::Object(m)@ == Json::Object(members_of(m))) by {
        assert(members_of(m) =~= match JsonValue::Object(m)@ {
            Json::Object(o) => o,
            _ => Seq::<(Seq<char>, Json)>::empty(),
        });
    }
}

/// The value of the first member named `k`.
pub open spec fn member(o: Seq<(Seq<char>, Json)>, k: Seq<char>) -> Option<Json>
    decreases o.len(),
{
    if o.len() == 0 {
        None
    } else if o[0].0 == k {
        Some(o[0].1)
    } else {
        member(o.drop_first(), k)
    }
}

/// The member of `obj` named `key`, if there is one.
pub fn get_member<'a>(obj: &'a Vec<(String, JsonValue)>, key: &str) -> (r: Option<&'a JsonValue>)
    ensures
        match r {
            Some(v) => member(members_of(*obj), key@) == Some(v@),
            None => member(members_of(*obj), key@) is None,
        },
{
    let ghost o = members_of(*obj);
    let mut i: usize = 0;
    proof {
        assert(o.skip(0) =~= o);
    }
    while i < obj.len()
        invariant
            i <= obj.len(),
            o == members_of(*obj),
            member(o, key@) == member(o.skip(i as int), key@),
        decreases obj.len() - i,
    {
        let ghost rest = o.skip(i as int);
        proof {
            assert(rest[0] == o[i as int]);
            assert(rest.drop_first() =~= o.skip(i as int + 1));
        }
        if str_eq(obj[i].0.as_str(), key) {
            return Some(&obj[i].1);
        }
        i += 1;
    }
    None
}

/// Whether chrono's `NaiveDate::parse_from_str(s, "%Y-%m-%d")` accepts `s`.
pub uninterp spec fn parses_as_ymd_date(s: Seq<char>) -> bool;

/// Asks chrono whether `s` is a date in `%Y-%m-%d` form. The contract names
/// the answer and says nothing of which texts chrono accepts.
#[verifier::external_body]
fn is_ymd_date(s: &str) -> (r: bool)
    ensures
        r == parses_as_ymd_date(s@),
{
    chrono::NaiveDate::parse_from_str(s, "%Y-%m-%d").is_ok()
}

pub open spec fn msg_not_object() -> Seq<char> {
    "frontmatter must be an object"@
}

pub open spec fn msg_missing_title() -> Seq<char> {
    "missing required field: title"@
}

pub open spec fn msg_missing_date() -> Seq<char> {
    "missing required field: date"@
}

pub open spec fn msg_missing_description() -> Seq<char> {
    "missing required field: description"@
}

pub open spec fn msg_date_format() -> Seq<char> {
    "date must be in YYYY-MM-DD format"@
}

pub open spec fn msg_date_string() -> Seq<char> {
    "date must be a string"@
}

pub open spec fn msg_tag_item(i: nat) -> Seq<char> {
    "tags["@ + decimal(i) + "] must be a string"@
}

pub open spec fn msg_tags_type() -> Seq<char> {
    "tags must be an array or string"@
}

pub open spec fn msg_draft() -> Seq<char> {
    "draft must be a boolean"@
}

pub open spec fn date_errors(o: Seq<(Seq<char>, Json)>) -> Seq<Seq<char>> {
    match member(o, "date"@) {
        Some(Json::Str(s)) => if parses_as_ymd_date(s) {
            Seq::<Seq<char>>::empty()
        } else {
            seq![msg_date_format()]
        },
        Some(_) => seq![msg_date_string()],
        None => Seq::<Seq<char>>::empty(),
    }
}

/// One message per item among the first `n` that is not a string.
pub open spec fn tag_item_errors(a: Seq<Json>, n: nat) -> Seq<Seq<char>>
    decreases n,
{
    if n == 0 {
        Seq::<Seq<char>>::empty()
    } else if a[n - 1] is Str {
        tag_item_errors(a, (n - 1) as nat)
    } else {
        tag_item_errors(a, (n - 1) as nat).push(msg_tag_item((n - 1) as nat))
    }
}

pub open spec fn tag_errors(o: Seq<(Seq<char>, Json)>) -> Seq<Seq<char>> {
    match member(o, "tags"@) {
        Some(Json::Array(a)) => tag_item_errors(a, a.len()),
        Some(Json::Str(_)) => Seq::<Seq<char>>::empty(),
        Some(_) => seq![msg_tags_type()],
        None => Seq::<Seq<char>>::empty(),
    }
}

pub open spec fn draft_errors(o: Seq<(Seq<char>, Json)>) -> Seq<Seq<char>> {
    match member(o, "draft"@) {
        Some(Json::Bool(_)) => Seq::<Seq<char>>::empty(),
        Some(_) => seq![msg_draft()],
        None => Seq::<Seq<char>>::empty(),
    }
}

/// The checks every entry's frontmatter gets: the date is a string in
/// `YYYY-MM-DD` form, tags are a string or an array of strings, draft is a
/// boolean; each only when present.
pub open spec fn common_errors(o: Seq<(Seq<char>, Json)>) -> Seq<Seq<char>> {
    date_errors(o) + tag_errors(o) + draft_errors(o)
}

pub open spec fn missing_error(o: Seq<(Seq<char>, Json)>, field: Seq<char>, msg: Seq<char>) -> Seq<
    Seq<char>,
> {
    if member(o, field) is None {
        seq![msg]
    } else {
        Seq::<Seq<char>>::empty()
    }
}

/// Everything wrong with an entry's frontmatter, in the order it is reported.
pub open spec fn entry_errors(v: Json) -> Seq<Seq<char>> {
    match v {
        Json::Object(o) => missing_error(o, "title"@, msg_missing_title()) + missing_error(
            o,
            "date"@,
            msg_missing_date(),
        ) + missing_error(o, "description"@, msg_missing_description()) + common_errors(o),
        _ => seq![msg_not_object()],
    }
}

/// The views of a list of messages.
pub open spec fn messages(v: Vec<String>) -> Seq<Seq<char>> {
    v@.map_values(|m: String| m@)
}

fn push_message(errors: &mut Vec<String>, m: String)
    ensures
        messages(*final(errors)) == messages(*old(errors)).push(m@),
{
    errors.push(m);
    proof {
        assert(messages(*final(errors)) =~= messages(*old(errors)).push(m@));
    }
}

fn validate_common(obj: &Vec<(String, JsonValue)>, errors: &mut Vec<String>)
    ensures
        messages(*final(errors)) == messages(*old(errors)) + common_errors(members_of(*obj)),
{
    let ghost o = members_of(*obj);
    let ghost start = messages(*errors);
    if let Some(date) = get_member(obj, "date") {
        if let JsonValue::String(s) = date {
            if !is_ymd_date(s.as_str()) {
                push_message(errors, String::from_str("date must be in YYYY-MM-DD format"));
            }
        } else {
            push_message(errors, String::from_str("date must be a string"));
        }
    }
    proof {
        assert(messages(*errors) =~= start + date_errors(o));
    }
    let ghost after_date = messages(*errors);
    if let Some(tags) = get_member(obj, "tags") {
        match tags {
            JsonValue::Array(arr) => {
                let ghost a = match tags@ {
                    Json::Array(a) => a,
                    _ => Seq::<Json>::empty(),
                };
                let mut i: usize = 0;
                while i < arr.len()
                    invariant
                        i <= arr.len(),
                        a.len() == arr.len(),
                        forall|j: int| 0 <= j < arr.len() ==> #[trigger] a[j] == arr[j]@,
                        messages(*errors) == after_date + tag_item_errors(a, i as nat),
                    decreases arr.len() - i,
                {
                    let is_string = match &arr[i] {
                        JsonValue::String(_) => true,
                        _ => false,
                    };
                    if !is_string {
                        let mut m = String::from_str("tags[");
                        let n = decimal_string(i);
                        m.append(n.as_str());
                        m.append("] must be a string");
                        push_message(errors, m);
                    }
                    proof {
                        assert(messages(*errors) =~= after_date + tag_item_errors(a, i as nat + 1));
                    }
                    i += 1;
                }
            },
            JsonValue::String(_) => {},
            _ => {
                push_message(errors, String::from_str("tags must be an array or string"));
            },
        }
    }
    proof {
        assert(messages(*errors) =~= start + date_errors(o) + tag_errors(o));
    }
    let ghost after_tags = messages(*errors);
    if let Some(draft) = get_member(obj, "draft") {
        let is_bool = match draft {
            JsonValue::Bool(_) => true,
            _ => false,
        };
        if !is_bool {
            push_message(errors, String::from_str("draft must be a boolean"));
        }
    }
    proof {
        assert(messages(*errors) =~= after_tags + draft_errors(o));
        assert(messages(*errors) =~= start + common_errors(o));
    }
}

/// Checks the fields an entry's frontmatter needs; all problems are reported.
fn validate_entry(value: &JsonValue) -> (r: Result<(), Vec<String>>)
    ensures
        r is Ok <==> entry_errors(value@).len() == 0,
        r matches Err(e) ==> messages(e) == entry_errors(value@),
{
    let mut errors: Vec<String> = Vec::new();
    proof {
        assert(messages(errors) =~= Seq::<Seq<char>>::empty());
    }
    let obj = match value {
        JsonValue::Object(o) => o,
        _ => {
            push_message(&mut errors, String::from_str("frontmatter must be an object"));
            proof {
                assert(messages(errors) =~= entry_errors(value@));
            }
            return Err(errors);
        },
    };
    let ghost o = members_of(*obj);
    proof {
        lemma_object_members(*obj);
    }
    if get_member(obj, "title").is_none() {
        push_message(&mut errors, String::from_str("missing required field: title"));
    }
    proof {
        assert(messages(errors) =~= missing_error(o, "title"@, msg_missing_title()));
    }
    let ghost m1 = messages(errors);
    if get_member(obj, "date").is_none() {
        push_message(&mut errors, String::from_str("missing required field: date"));
    }
    proof {
        assert(messages(errors) =~= m1 + missing_error(o, "date"@, msg_missing_date()));
    }
    let ghost m2 = messages(errors);
    if get_member(obj, "description").is_none() {
        push_message(&mut errors, String::from_str("missing required field: description"));
    }
    proof {
        assert(messages(errors) =~= m2 + missing_error(o, "description"@, msg_missing_description()));
    }
    proof {
        assert(messages(errors) =~= missing_error(o, "title"@, msg_missing_title()) + missing_error(o, "date"@, msg_missing_date())
            + missing_error(o, "description"@, msg_missing_description()));
    }
    validate_common(obj, &mut errors);
    proof {
        assert(messages(errors) =~= entry_errors(value@));
    }
    if errors.len() == 0 {
        Ok(())
    } else {
        Err(errors)
    }
}

/// Checks a blog post's frontmatter: title, date and description present,
/// and the common checks.
pub fn validate_blog_frontmatter(value: &JsonValue) -> (r: Result<(), Vec<String>>)
    ensures
        r is Ok <==> entry_errors(value@).len() == 0,
        r matches Err(e) ==> messages(e) == entry_errors(value@),
{
    validate_entry(value)
}

/// Checks a project's frontmatter: the same fields as a post's.
pub fn validate_project_frontmatter(value: &JsonValue) -> (r: Result<(), Vec<String>>)
    ensures
        r is Ok <==> entry_errors(value@).len() == 0,
        r matches Err(e) ==> messages(e) == entry_errors(value@),
{
    validate_entry(value)
}

/// The items of an array as mathematical values.
pub open spec fn items_of(v: Vec<JsonValue>) -> Seq<Json> {
    Seq::new(v.len() as nat, |i: int| v[i]@)
}

pub proof fn lemma_array_items(v: Vec<JsonValue>)
    ensures
        JsonValue::Array(v)@ == Json::Array(items_of(v)),
{
    assert(items_of(v) =~= match JsonValue::Array(v)@ {
        Json::Array(a) => a,
        _ => Seq::<Json>::empty(),
    });
}

/// Strings as an array of JSON strings.
pub open spec fn string_array(v: Seq<String>) -> Json {
    Json::Array(Seq::new(v.len(), |i: int| Json::Str(v[i]@)))
}

/// The frontmatter of a blog post; members in key order.
pub open spec fn blog_frontmatter(post: BlogPost) -> Json {
    let head = seq![
        ("date"@, Json::Str(post.date@)),
        ("description"@, Json::Str(post.description@)),
        ("draft"@, Json::Bool(post.draft)),
    ];
    let tail = seq![("tags"@, string_array(post.tags@)), ("title"@, Json::Str(post.title@))];
    match post.image {
        Some(img) => Json::Object(head.push(("image"@, Json::Str(img@))) + tail),
        None => Json::Object(head + tail),
    }
}

/// The links of a project: those it has, in key order.
pub open spec fn links_members(source: Option<String>, demo: Option<String>) -> Seq<
    (Seq<char>, Json),
> {
    let d = match demo {
        Some(x) => seq![("demo"@, Json::Str(x@))],
        None => Seq::<(Seq<char>, Json)>::empty(),
    };
    let s = match source {
        Some(x) => seq![("source"@, Json::Str(x@))],
        None => Seq::<(Seq<char>, Json)>::empty(),
    };
    d + s
}

/// The frontmatter of a project; members in key order.
pub open spec fn project_frontmatter(p: Project) -> Json {
    Json::Object(
        seq![
            ("date"@, Json::Str(p.date@)),
            ("description"@, Json::Str(p.description@)),
            ("featured"@, Json::Bool(p.featured)),
            ("links"@, Json::Object(links_members(p.links.source, p.links.demo))),
            ("techStack"@, string_array(p.tech_stack@)),
            ("title"@, Json::Str(p.title@)),
        ],
    )
}

fn strings_to_json(v: &Vec<String>) -> (r: JsonValue)
    ensures
        r@ == string_array(v@),
{
    let mut items: Vec<JsonValue> = Vec::new();
    let mut i: usize = 0;
    while i < v.len()
        invariant
            i <= v.len(),
            items.len() == i,
            forall|j: int| 0 <= j < i ==> #[trigger] items[j]@ == Json::Str(v[j]@),
        decreases v.len() - i,
    {
        items.push(JsonValue::String(v[i].clone()));
        i += 1;
    }
    proof {
        lemma_array_items(items);
        assert(items_of(items) =~= Seq::new(v@.len(), |i: int| Json::Str(v@[i]@)));
    }
    JsonValue::Array(items)
}

fn member_pair(key: &str, value: JsonValue) -> (r: (String, JsonValue))
    ensures
        r.0@ == key@,
        r.1 == value,
{
    (String::from_str(key), value)
}

/// The frontmatter value for a blog post.
pub fn build_blog_frontmatter(post: &BlogPost) -> (r: JsonValue)
    ensures
        r@ == blog_frontmatter(*post),
{
    let mut map: Vec<(String, JsonValue)> = Vec::new();
    map.push(member_pair("date", JsonValue::String(post.date.clone())));
    map.push(member_pair("description", JsonValue::String(post.description.clone())));
    map.push(member_pair("draft", JsonValue::Bool(post.draft)));
    let ghost with_img: bool = post.image is Some;
    if let Some(img) = &post.image {
        map.push(member_pair("image", JsonValue::String(img.clone())));
    }
    map.push(member_pair("tags", strings_to_json(&post.tags)));
    map.push(member_pair("title", JsonValue::String(post.title.clone())));
    proof {
        lemma_object_members(map);
        let o = match blog_frontmatter(*post) {
            Json::Object(o) => o,
            _ => Seq::<(Seq<char>, Json)>::empty(),
        };
        assert(members_of(map) =~= o);
    }
    JsonValue::Object(map)
}

/// The frontmatter value for a project.
pub fn build_project_frontmatter(project: &Project) -> (r: JsonValue)
    ensures
        r@ == project_frontmatter(*project),
{
    let mut map: Vec<(String, JsonValue)> = Vec::new();
    map.push(member_pair("date", JsonValue::String(project.date.clone())));
    map.push(member_pair("description", JsonValue::String(project.description.clone())));
    map.push(member_pair("featured", JsonValue::Bool(project.featured)));
    let mut links: Vec<(String, JsonValue)> = Vec::new();
    if let Some(d) = &project.links.demo {
        links.push(member_pair("demo", JsonValue::String(d.clone())));
    }
    if let Some(s) = &project.links.source {
        links.push(member_pair("source", JsonValue::String(s.clone())));
    }
    proof {
        lemma_object_members(links);
        assert(members_of(links) =~= links_members(project.links.source, project.links.demo));
    }
    map.push(member_pair("links", JsonValue::Object(links)));
    map.push(member_pair("techStack", strings_to_json(&project.tech_stack)));
    map.push(member_pair("title", JsonValue::String(project.title.clone())));
    proof {
        lemma_object_members(map);
        let o = match project_frontmatter(*project) {
            Json::Object(o) => o,
            _ => Seq::<(Seq<char>, Json)>::empty(),
        };
        assert(members_of(map) =~= o);
    }
    JsonValue::Object(map)
}

proof fn lemma_all_str_no_tag_errors(a: Seq<Json>, n: nat)
    requires
        n <= a.len(),
        forall|i: int| 0 <= i < a.len() ==> #[trigger] a[i] is Str,
    ensures
        tag_item_errors(a, n) == Seq::<Seq<char>>::empty(),
    decreases n,
{
    if n > 0 {
        lemma_all_str_no_tag_errors(a, (n - 1) as nat);
    }
}

proof fn lemma_key_literals()
    ensures
        "date"@ == seq!['d', 'a', 't', 'e'],
        "description"@ == seq!['d', 'e', 's', 'c', 'r', 'i', 'p', 't', 'i', 'o', 'n'],
        "draft"@ == seq!['d', 'r', 'a', 'f', 't'],
        "image"@ == seq!['i', 'm', 'a', 'g', 'e'],
        "tags"@ == seq!['t', 'a', 'g', 's'],
        "title"@ == seq!['t', 'i', 't', 'l', 'e'],
        "featured"@ == seq!['f', 'e', 'a', 't', 'u', 'r', 'e', 'd'],
        "links"@ == seq!['l', 'i', 'n', 'k', 's'],
        "techStack"@ == seq!['t', 'e', 'c', 'h', 'S', 't', 'a', 'c', 'k'],
{
    reveal_strlit("date");
    reveal_strlit("description");
    reveal_strlit("draft");
    reveal_strlit("image");
    reveal_strlit("tags");
    reveal_strlit("title");
    reveal_strlit("featured");
    reveal_strlit("links");
    reveal_strlit("techStack");
}

proof fn lemma_member_absent(o: Seq<(Seq<char>, Json)>, k: Seq<char>)
    requires
        forall|i: int| 0 <= i < o.len() ==> #[trigger] o[i].0 != k,
    ensures
        member(o, k) is None,
    decreases o.len(),
{
    if o.len() > 0 {
        assert(o[0].0 != k);
        assert forall|i: int| 0 <= i < o.drop_first().len() implies #[trigger] o.drop_first()[i].0 != k by {
            assert(o.drop_first()[i] == o[i + 1]);
        }
        lemma_member_absent(o.drop_first(), k);
    }
}

/// An object without one of the fields an entry needs (title, date or
/// description) is reported as missing that field, so it never validates.
pub proof fn law_missing_field_reported(o: Seq<(Seq<char>, Json)>, key: Seq<char>)
    requires
        key == "title"@ || key == "date"@ || key == "description"@,
        forall|i: int| 0 <= i < o.len() ==> #[trigger] o[i].0 != key,
    ensures
        entry_errors(Json::Object(o)).contains("missing required field: "@ + key),
        entry_errors(Json::Object(o)).len() > 0,
{
    reveal_strlit("title");
    reveal_strlit("date");
    reveal_strlit("description");
    reveal_strlit("missing required field: ");
    reveal_strlit("missing required field: title");
    reveal_strlit("missing required field: date");
    reveal_strlit("missing required field: description");
    lemma_member_absent(o, key);
    let t = missing_error(o, "title"@, msg_missing_title());
    let d = missing_error(o, "date"@, msg_missing_date());
    let ds = missing_error(o, "description"@, msg_missing_description());
    let e = entry_errors(Json::Object(o));
    assert(e == t + d + ds + common_errors(o));
    let msg = "missing required field: "@ + key;
    if key == "title"@ {
        assert(msg =~= msg_missing_title());
        assert(e[0] == msg);
    } else if key == "date"@ {
        assert(msg =~= msg_missing_date());
        assert(e[t.len() as int] == msg);
    } else {
        assert(msg =~= msg_missing_description());
        assert(e[(t.len() + d.len()) as int] == msg);
    }
}

/// A nonempty array is written as a bracketed list whatever its length: it
/// starts with `[`, ends with `]`, and holds the first item's YAML right
/// after the bracket.
pub proof fn law_array_yaml_bracketed(a: Seq<Json>)
    requires
        a.len() > 0,
    ensures
        yaml_value(Json::Array(a)).len() >= 2,
        yaml_value(Json::Array(a))[0] == '[',
        yaml_value(Json::Array(a)).last() == ']',
        yaml_value(Json::Array(a)).subrange(1, 1 + yaml_value(a[0]).len() as int) == yaml_value(a[0]),
{
    lemma_items_start(a);
    let y = yaml_value(Json::Array(a));
    let it = yaml_items(a);
    assert(y == seq!['['] + it + seq![']']);
    assert(y.subrange(1, 1 + yaml_value(a[0]).len() as int) =~= it.subrange(0, yaml_value(a[0]).len() as int));
}

proof fn lemma_items_start(a: Seq<Json>)
    requires
        a.len() > 0,
    ensures
        yaml_items(a).len() >= yaml_value(a[0]).len(),
        yaml_items(a).subrange(0, yaml_value(a[0]).len() as int) == yaml_value(a[0]),
    decreases a.len(),
{
    if a.len() == 1 {
        assert(yaml_items(a).subrange(0, yaml_value(a[0]).len() as int) =~= yaml_value(a[0]));
    } else {
        let init = a.subrange(0, a.len() - 1);
        lemma_items_start(init);
        assert(init[0] == a[0]);
        let p = yaml_items(init);
        let n = yaml_value(a[0]).len() as int;
        assert(yaml_items(a) == p + seq![',', ' '] + yaml_value(a[a.len() - 1]));
        assert(yaml_items(a).subrange(0, n) =~= p.subrange(0, n));
    }
}

/// A list of one string is written with its brackets: `[s]`.
pub proof fn law_single_string_list(s: Seq<char>)
    ensures
        yaml_value(Json::Array(seq![Json::Str(s)])) == seq!['['] + s + seq![']'],
{
    let a = seq![Json::Str(s)];
    assert(a.len() == 1 && a[0] == Json::Str(s));
    assert(yaml_value(a[0]) == s);
    assert(yaml_items(a) == yaml_value(a[0]));
}

/// The frontmatter built for a blog post has every field a post needs; the
/// only thing validation can find wrong with it is the form of the date.
pub proof fn law_blog_frontmatter_valid(post: BlogPost)
    ensures
        entry_errors(blog_frontmatter(post)) == if parses_as_ymd_date(post.date@) {
            Seq::<Seq<char>>::empty()
        } else {
            seq![msg_date_format()]
        },
{
    lemma_key_literals();
    let o = match blog_frontmatter(post) {
        Json::Object(o) => o,
        _ => Seq::empty(),
    };
    let tags = Seq::new(post.tags@.len(), |i: int| Json::Str(post.tags@[i]@));
    lemma_all_str_no_tag_errors(tags, tags.len());
    assert(member(o, "title"@) is Some) by {
        reveal_with_fuel(member, 7);
    }
    assert(member(o, "date"@) == Some(Json::Str(post.date@))) by {
        reveal_with_fuel(member, 2);
    }
    assert(member(o, "description"@) is Some) by {
        reveal_with_fuel(member, 3);
    }
    assert(member(o, "tags"@) == Some(string_array(post.tags@))) by {
        reveal_with_fuel(member, 6);
    }
    assert(member(o, "draft"@) == Some(Json::Bool(post.draft))) by {
        reveal_with_fuel(member, 4);
    }
    assert(missing_error(o, "title"@, msg_missing_title()) =~= Seq::<Seq<char>>::empty());
    assert(missing_error(o, "date"@, msg_missing_date()) =~= Seq::<Seq<char>>::empty());
    assert(missing_error(o, "description"@, msg_missing_description()) =~= Seq::<Seq<char>>::empty());
    assert(entry_errors(blog_frontmatter(post)) =~= date_errors(o));
}

/// The frontmatter built for a project has every field a project needs;
/// the only thing validation can find wrong with it is the form of the date.
pub proof fn law_project_frontmatter_valid(p: Project)
    ensures
        entry_errors(project_frontmatter(p)) == if parses_as_ymd_date(p.date@) {
            Seq::<Seq<char>>::empty()
        } else {
            seq![msg_date_format()]
        },
{
    lemma_key_literals();
    let o = match project_frontmatter(p) {
        Json::Object(o) => o,
        _ => Seq::empty(),
    };
    assert(member(o, "title"@) is Some) by {
        reveal_with_fuel(member, 7);
    }
    assert(member(o, "date"@) == Some(Json::Str(p.date@))) by {
        reveal_with_fuel(member, 2);
    }
    assert(member(o, "description"@) is Some) by {
        reveal_with_fuel(member, 3);
    }
    assert(member(o, "tags"@) is None) by {
        reveal_with_fuel(member, 7);
    }
    assert(member(o, "draft"@) is None) by {
        reveal_with_fuel(member, 7);
    }
    assert(missing_error(o, "title"@, msg_missing_title()) =~= Seq::<Seq<char>>::empty());
    assert(missing_error(o, "date"@, msg_missing_date()) =~= Seq::<Seq<char>>::empty());
    assert(missing_error(o, "description"@, msg_missing_description()) =~= Seq::<Seq<char>>::empty());
    assert(entry_errors(project_frontmatter(p)) =~= date_errors(o));
}

} // verus!
