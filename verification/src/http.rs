//! The slice of HTTP the proxy understands: recovering the request path
//! from a request line, the fixed rejection response, and the
//! request-rewrite rules applied before forwarding.

use vstd::prelude::*;

use crate::config::RequestModificationRule;
use vstd::string::StringSliceAdditionalSpecFns;

verus! {

/// ASCII whitespace, as the request-line tokenizer sees it.
pub open spec fn spec_is_ws(c: char) -> bool {
    c == ' ' || c == '\t' || c == '\r' || c == '\n'
}

/// The first position at or after `i` holding a non-whitespace character,
/// or the end.
pub open spec fn spec_skip_ws(s: Seq<char>, i: nat) -> nat
    decreases s.len() - i,
{
    if i >= s.len() {
        s.len()
    } else if spec_is_ws(s[i as int]) {
        spec_skip_ws(s, i + 1)
    } else {
        i
    }
}

/// The first position at or after `i` holding a whitespace character, or
/// the end.
pub open spec fn spec_skip_token(s: Seq<char>, i: nat) -> nat
    decreases s.len() - i,
{
    if i >= s.len() {
        s.len()
    } else if !spec_is_ws(s[i as int]) {
        spec_skip_token(s, i + 1)
    } else {
        i
    }
}

/// Finds the first non-whitespace position at or after `from`.
fn find_non_ws(line: &str, from: usize) -> (r: usize)
    requires
        from <= line@.len(),
    ensures
        r == spec_skip_ws(line@, from as nat),
        from <= r <= line@.len(),
{
    let len = line.unicode_len();
    let mut i = from;
    while i < len
        invariant
            from <= i <= len,
            len == line@.len(),
            spec_skip_ws(line@, from as nat) == spec_skip_ws(line@, i as nat),
        decreases len - i,
    {
        let c = line.get_char(i);
        if !(c == ' ' || c == '\t' || c == '\r' || c == '\n') {
            return i;
        }
        i += 1;
    }
    len
}

/// Finds the first whitespace position at or after `from`.
fn find_ws(line: &str, from: usize) -> (r: usize)
    requires
        from <= line@.len(),
    ensures
        r == spec_skip_token(line@, from as nat),
        from <= r <= line@.len(),
{
    let len = line.unicode_len();
    let mut i = from;
    while i < len
        invariant
            from <= i <= len,
            len == line@.len(),
            spec_skip_token(line@, from as nat) == spec_skip_token(line@, i as nat),
        decreases len - i,
    {
        let c = line.get_char(i);
        if c == ' ' || c == '\t' || c == '\r' || c == '\n' {
            return i;
        }
        i += 1;
    }
    len
}

/// Whether a request line is well formed: at least three
/// whitespace-separated tokens (method, path, version).
pub open spec fn spec_request_line_valid(s: Seq<char>) -> bool {
    let m_start = spec_skip_ws(s, 0);
    let m_end = spec_skip_token(s, m_start);
    let p_start = spec_skip_ws(s, m_end);
    let p_end = spec_skip_token(s, p_start);
    let v_start = spec_skip_ws(s, p_end);
    m_start < s.len() && p_start < s.len() && v_start < s.len()
}

/// The second whitespace-separated token of a request line: the request
/// path.
pub open spec fn spec_request_path(s: Seq<char>) -> Seq<char> {
    let m_start = spec_skip_ws(s, 0);
    let m_end = spec_skip_token(s, m_start);
    let p_start = spec_skip_ws(s, m_end);
    let p_end = spec_skip_token(s, p_start);
    s.subrange(p_start as int, p_end as int)
}

/// The first whitespace-separated token of a request line: the method.
pub open spec fn spec_request_method(s: Seq<char>) -> Seq<char> {
    let m_start = spec_skip_ws(s, 0);
    let m_end = spec_skip_token(s, m_start);
    s.subrange(m_start as int, m_end as int)
}

/// Recovers the request path — the second whitespace-separated token — from
/// a request line with at least three tokens; a malformed line yields
/// nothing.
pub fn parse_request_path(line: &str) -> (r: Option<String>)
    ensures
        r is Some <==> spec_request_line_valid(line@),
        r matches Some(p) ==> p@ == spec_request_path(line@),
{
    let len = line.unicode_len();
    let m_start = find_non_ws(line, 0);
    if m_start >= len {
        return None;
    }
    let m_end = find_ws(line, m_start);
    let p_start = find_non_ws(line, m_end);
    if p_start >= len {
        return None;
    }
    let p_end = find_ws(line, p_start);
    let v_start = find_non_ws(line, p_end);
    if v_start >= len {
        return None;
    }
    Some(line.substring_char(p_start, p_end).to_owned())
}

/// Recovers method and path from a request line with at least three
/// tokens.
pub fn parse_request_line(line: &str) -> (r: Option<(String, String)>)
    ensures
        r is Some <==> spec_request_line_valid(line@),
        r matches Some(mp) ==> mp.0@ == spec_request_method(line@) && mp.1@ == spec_request_path(
            line@,
        ),
{
    let len = line.unicode_len();
    let m_start = find_non_ws(line, 0);
    if m_start >= len {
        return None;
    }
    let m_end = find_ws(line, m_start);
    let p_start = find_non_ws(line, m_end);
    if p_start >= len {
        return None;
    }
    let p_end = find_ws(line, p_start);
    let v_start = find_non_ws(line, p_end);
    if v_start >= len {
        return None;
    }
    let method = line.substring_char(m_start, m_end).to_owned();
    let path = line.substring_char(p_start, p_end).to_owned();
    Some((method, path))
}

/// The bytes of the fixed rejection response sent when admission is
/// denied.
pub open spec fn spec_rate_limit_response() -> Seq<u8> {
    "HTTP/1.1 429 Too Many Requests\r\nContent-Type: text/plain\r\nContent-Length: 27\r\n\r\nError: Rate limit exceeded.\n".spec_bytes()
}

/// The response written to a client whose request was rejected by the rate
/// limiter, before the connection closes.
pub fn rate_limit_response() -> (r: Vec<u8>)
    ensures
        r@ == spec_rate_limit_response(),
{
    ("HTTP/1.1 429 Too Many Requests\r\nContent-Type: text/plain\r\nContent-Length: 27\r\n\r\nError: Rate limit exceeded.\n").as_bytes_vec()
}

/// Whether `pat` occurs in `s` starting at or after `from`; the result is
/// the first such position, or -1.
pub open spec fn spec_find_sub(s: Seq<char>, pat: Seq<char>, from: nat) -> int
    decreases s.len() - from + 1,
{
    if from + pat.len() > s.len() {
        -1
    } else if s.subrange(from as int, from as int + pat.len() as int) == pat {
        from as int
    } else {
        spec_find_sub(s, pat, from + 1)
    }
}

pub open spec fn spec_contains_sub(s: Seq<char>, pat: Seq<char>) -> bool {
    spec_find_sub(s, pat, 0) >= 0
}

/// Whether `pat` matches `s` at position `at`.
fn matches_at(s: &str, pat: &str, at: usize) -> (r: bool)
    requires
        at <= s@.len(),
    ensures
        r == (at + pat@.len() <= s@.len() && s@.subrange(at as int, at as int + pat@.len() as int)
            == pat@),
{
    let slen = s.unicode_len();
    let plen = pat.unicode_len();
    if plen > slen - at {
        return false;
    }
    let mut j: usize = 0;
    while j < plen
        invariant
            j <= plen,
            plen == pat@.len(),
            slen == s@.len(),
            at + plen <= slen,
            forall|k: int| 0 <= k < j ==> s@[at + k] == pat@[k],
        decreases plen - j,
    {
        if s.get_char(at + j) != pat.get_char(j) {
            proof {
                assert(s@.subrange(at as int, at as int + pat@.len() as int)[j as int] == s@[at
                    + j]);
            }
            return false;
        }
        j += 1;
    }
    proof {
        assert(s@.subrange(at as int, at as int + pat@.len() as int) =~= pat@);
    }
    true
}

/// Finds the first occurrence of `pat` in `s` at or after `from`.
pub fn find_substring_from(s: &str, pat: &str, from: usize) -> (r: Option<usize>)
    requires
        from <= s@.len(),
    ensures
        match r {
            Some(i) => from <= i && i + pat@.len() <= s@.len() && spec_find_sub(
                s@,
                pat@,
                from as nat,
            ) == i as int,
            None => spec_find_sub(s@, pat@, from as nat) == -1,
        },
{
    let slen = s.unicode_len();
    let plen = pat.unicode_len();
    if plen == 0 {
        proof {
            assert(s@.subrange(from as int, from as int) =~= pat@);
        }
        return Some(from);
    }
    let mut i = from;
    loop
        invariant
            from <= i <= slen,
            slen == s@.len(),
            plen == pat@.len(),
            plen >= 1,
            spec_find_sub(s@, pat@, from as nat) == spec_find_sub(s@, pat@, i as nat),
        decreases slen - i,
    {
        if plen > slen - i {
            return None;
        }
        if matches_at(s, pat, i) {
            return Some(i);
        }
        i += 1;
    }
}

/// Whether the path contains the given fragment.
pub fn contains_substring(s: &str, pat: &str) -> (r: bool)
    ensures
        r == spec_contains_sub(s@, pat@),
{
    match find_substring_from(s, pat, 0) {
        Some(_) => true,
        None => false,
    }
}

/// A header list as character sequences: the name and value of each
/// header, in order.
pub open spec fn spec_header_views(headers: Seq<(String, String)>) -> Seq<(Seq<char>, Seq<char>)> {
    headers.map_values(|p: (String, String)| (p.0@, p.1@))
}

/// The header list without every header of the given name.
pub open spec fn spec_without_header(
    headers: Seq<(Seq<char>, Seq<char>)>,
    name: Seq<char>,
) -> Seq<(Seq<char>, Seq<char>)>
    decreases headers.len(),
{
    if headers.len() == 0 {
        Seq::empty()
    } else if headers[0].0 == name {
        spec_without_header(headers.drop_first(), name)
    } else {
        seq![headers[0]] + spec_without_header(headers.drop_first(), name)
    }
}

/// The header list with `name` set to `value`: the first header of that
/// name changes its value, or the header is appended.
pub open spec fn spec_upsert_header(
    headers: Seq<(Seq<char>, Seq<char>)>,
    name: Seq<char>,
    value: Seq<char>,
) -> Seq<(Seq<char>, Seq<char>)>
    decreases headers.len(),
{
    if headers.len() == 0 {
        seq![(name, value)]
    } else if headers[0].0 == name {
        seq![(headers[0].0, value)] + headers.drop_first()
    } else {
        seq![headers[0]] + spec_upsert_header(headers.drop_first(), name, value)
    }
}

/// Removes every header named `name`.
pub fn remove_header_entries(headers: &mut Vec<(String, String)>, name: &String)
    ensures
        spec_header_views(final(headers)@) == spec_without_header(
            spec_header_views(old(headers)@),
            name@,
        ),
{
    let n = headers.len();
    let mut out: Vec<(String, String)> = Vec::new();
    let mut i: usize = 0;
    proof {
        assert(spec_header_views(headers@).skip(0) =~= spec_header_views(headers@));
        assert(spec_without_header(spec_header_views(headers@), name@) =~= spec_header_views(
            out@,
        ) + spec_without_header(spec_header_views(headers@).skip(0), name@));
    }
    while i < n
        invariant
            i <= n,
            n == headers@.len(),
            spec_without_header(spec_header_views(headers@), name@) == spec_header_views(out@)
                + spec_without_header(spec_header_views(headers@).skip(i as int), name@),
        decreases n - i,
    {
        proof {
            assert(spec_header_views(headers@).skip(i as int).drop_first() =~= spec_header_views(
                headers@,
            ).skip(i as int + 1));
            assert(spec_header_views(headers@).skip(i as int)[0] == (
                headers@[i as int].0@,
                headers@[i as int].1@,
            ));
        }
        let ghost out_before = out@;
        let entry_name = headers[i].0.clone();
        let entry_value = headers[i].1.clone();
        if !(entry_name == *name) {
            out.push((entry_name, entry_value));
            proof {
                assert(spec_header_views(out@) =~= spec_header_views(out_before) + seq![
                    (headers@[i as int].0@, headers@[i as int].1@),
                ]);
                assert(spec_header_views(out_before) + (seq![
                    (headers@[i as int].0@, headers@[i as int].1@),
                ] + spec_without_header(spec_header_views(headers@).skip(i as int + 1), name@))
                    =~= spec_header_views(out@) + spec_without_header(
                    spec_header_views(headers@).skip(i as int + 1),
                    name@,
                ));
            }
        }
        i += 1;
    }
    proof {
        assert(spec_header_views(headers@).skip(n as int)
            =~= Seq::<(Seq<char>, Seq<char>)>::empty());
        assert(spec_without_header(spec_header_views(headers@), name@) =~= spec_header_views(
            out@,
        ));
    }
    *headers = out;
}

/// Sets `name` to `value`, overwriting the first header of that name or
/// appending a new one.
pub fn upsert_header(headers: &mut Vec<(String, String)>, name: String, value: String)
    ensures
        spec_header_views(final(headers)@) == spec_upsert_header(
            spec_header_views(old(headers)@),
            name@,
            value@,
        ),
{
    let n = headers.len();
    let mut i: usize = 0;
    while i < n
        invariant
            i <= n,
            n == headers@.len(),
            headers@ == old(headers)@,
            forall|j: int| 0 <= j < i ==> (#[trigger] headers@[j].0)@ !== name@,
        decreases n - i,
    {
        if headers[i].0 == name {
            let ghost before = headers@;
            let key = headers[i].0.clone();
            headers[i] = (key, value);
            proof {
                assert forall|j: int|
                    0 <= j < i implies (#[trigger] spec_header_views(before)[j]).0 !== name@ by {
                    assert(spec_header_views(before)[j] == (before[j].0@, before[j].1@));
                }
                assert(spec_header_views(before)[i as int] == (
                    before[i as int].0@,
                    before[i as int].1@,
                ));
                lemma_upsert_at(spec_header_views(before), name@, value@, i as int);
                assert(spec_header_views(headers@) =~= spec_header_views(before).update(
                    i as int,
                    (before[i as int].0@, value@),
                ));
            }
            return ;
        }
        i += 1;
    }
    let ghost before = headers@;
    headers.push((name, value));
    proof {
        assert forall|j: int|
            0 <= j < spec_header_views(before).len() implies (
        #[trigger] spec_header_views(before)[j]).0 !== name@ by {
            assert(spec_header_views(before)[j] == (before[j].0@, before[j].1@));
        }
        lemma_upsert_missing(spec_header_views(before), name@, value@);
        assert(spec_header_views(headers@) =~= spec_header_views(before).push((name@, value@)));
    }
}

/// When the first `at` headers differ from `name` and the one at `at`
/// carries it, the upsert updates exactly that position.
proof fn lemma_upsert_at(headers: Seq<(Seq<char>, Seq<char>)>, name: Seq<char>, value: Seq<char>, at: int)
    requires
        0 <= at < headers.len(),
        headers[at].0 == name,
        forall|j: int| 0 <= j < at ==> (#[trigger] headers[j]).0 !== name,
    ensures
        spec_upsert_header(headers, name, value) == headers.update(at, (headers[at].0, value)),
    decreases at,
{
    if at == 0 {
        assert(spec_upsert_header(headers, name, value) =~= headers.update(
            0,
            (headers[0].0, value),
        ));
    } else {
        assert(forall|j: int|
            0 <= j < at - 1 ==> (#[trigger] headers.drop_first()[j]).0 == headers[j + 1].0);
        lemma_upsert_at(headers.drop_first(), name, value, at - 1);
        assert(spec_upsert_header(headers, name, value) =~= headers.update(
            at,
            (headers[at].0, value),
        ));
    }
}

/// When no header carries `name`, the upsert appends.
proof fn lemma_upsert_missing(headers: Seq<(Seq<char>, Seq<char>)>, name: Seq<char>, value: Seq<char>)
    requires
        forall|j: int| 0 <= j < headers.len() ==> (#[trigger] headers[j]).0 !== name,
    ensures
        spec_upsert_header(headers, name, value) == headers.push((name, value)),
    decreases headers.len(),
{
    if headers.len() == 0 {
        assert(spec_upsert_header(headers, name, value) =~= headers.push((name, value)));
    } else {
        assert(forall|j: int|
            0 <= j < headers.drop_first().len() ==> (#[trigger] headers.drop_first()[j]).0
                == headers[j + 1].0);
        lemma_upsert_missing(headers.drop_first(), name, value);
        assert(spec_upsert_header(headers, name, value) =~= headers.push((name, value)));
    }
}

/// The path and headers after the rewrite rules, applied in order: a rule
/// whose `path_contains` fragment occurs in the path and that names a
/// replacement replaces the path and ends processing (its own header edits
/// and all later rules are not applied); any other rule removes its named
/// headers and then adds its headers, overwriting same-named ones.
pub open spec fn spec_apply_rules(
    path: Seq<char>,
    headers: Seq<(Seq<char>, Seq<char>)>,
    rules: Seq<RequestModificationRule>,
) -> (Seq<char>, Seq<(Seq<char>, Seq<char>)>)
    decreases rules.len(),
{
    if rules.len() == 0 {
        (path, headers)
    } else {
        let rule = rules[0];
        if rule.path_contains is Some && spec_contains_sub(path, rule.path_contains.unwrap()@)
            && rule.rewrite_url is Some {
            (rule.rewrite_url.unwrap()@, headers)
        } else {
            spec_apply_rules(path, spec_rule_headers(headers, rule), rules.drop_first())
        }
    }
}

/// One rule's header edits: the named removals, then the additions.
pub open spec fn spec_rule_headers(
    headers: Seq<(Seq<char>, Seq<char>)>,
    rule: RequestModificationRule,
) -> Seq<(Seq<char>, Seq<char>)> {
    spec_add_headers(spec_remove_headers(headers, rule.remove_headers@), rule.add_headers@)
}

pub open spec fn spec_remove_headers(
    headers: Seq<(Seq<char>, Seq<char>)>,
    names: Seq<String>,
) -> Seq<(Seq<char>, Seq<char>)>
    decreases names.len(),
{
    if names.len() == 0 {
        headers
    } else {
        spec_remove_headers(spec_without_header(headers, names[0]@), names.drop_first())
    }
}

pub open spec fn spec_add_headers(
    headers: Seq<(Seq<char>, Seq<char>)>,
    additions: Seq<(String, String)>,
) -> Seq<(Seq<char>, Seq<char>)>
    decreases additions.len(),
{
    if additions.len() == 0 {
        headers
    } else {
        spec_add_headers(
            spec_upsert_header(headers, additions[0].0@, additions[0].1@),
            additions.drop_first(),
        )
    }
}

/// Applies the rewrite rules to a parsed path and header list; the result
/// is the possibly replaced path, with the headers edited in place.
pub fn apply_modification_rules(
    path: String,
    headers: &mut Vec<(String, String)>,
    rules: &Vec<RequestModificationRule>,
) -> (r: String)
    ensures
        (r@, spec_header_views(final(headers)@)) == spec_apply_rules(
            path@,
            spec_header_views(old(headers)@),
            rules@,
        ),
{
    let n = rules.len();
    let mut i: usize = 0;
    proof {
        assert(rules@.skip(0) =~= rules@);
    }
    while i < n
        invariant
            i <= n,
            n == rules@.len(),
            spec_apply_rules(path@, spec_header_views(old(headers)@), rules@) == spec_apply_rules(
                path@,
                spec_header_views(headers@),
                rules@.skip(i as int),
            ),
        decreases n - i,
    {
        proof {
            assert(rules@.skip(i as int).drop_first() =~= rules@.skip(i as int + 1));
            assert(rules@.skip(i as int)[0] == rules@[i as int]);
        }
        let rule = &rules[i];
        match (&rule.path_contains, &rule.rewrite_url) {
            (Some(fragment), Some(replacement)) => {
                if contains_substring(path.as_str(), fragment.as_str()) {
                    return replacement.clone();
                }
            },
            _ => {},
        }
        let ghost hdrs0 = headers@;
        let rn = rule.remove_headers.len();
        let mut j: usize = 0;
        proof {
            assert(rule.remove_headers@.skip(0) =~= rule.remove_headers@);
        }
        while j < rn
            invariant
                j <= rn,
                i < rules@.len(),
                rn == rules@[i as int].remove_headers@.len(),
                spec_remove_headers(
                    spec_header_views(hdrs0),
                    rules@[i as int].remove_headers@,
                ) == spec_remove_headers(
                    spec_header_views(headers@),
                    rules@[i as int].remove_headers@.skip(j as int),
                ),
            decreases rn - j,
        {
            proof {
                assert(rules@[i as int].remove_headers@.skip(j as int).drop_first()
                    =~= rules@[i as int].remove_headers@.skip(j as int + 1));
                assert(rules@[i as int].remove_headers@.skip(j as int)[0] == rules@[i as int].remove_headers@[j as int]);
            }
            let name = &rules[i].remove_headers[j];
            remove_header_entries(headers, name);
            j += 1;
        }
        proof {
            assert(rules@[i as int].remove_headers@.skip(rn as int)
                =~= Seq::<String>::empty());
        }
        let ghost hdrs1 = headers@;
        let an = rule.add_headers.len();
        let mut k: usize = 0;
        proof {
            assert(rule.add_headers@.skip(0) =~= rule.add_headers@);
        }
        while k < an
            invariant
                k <= an,
                i < rules@.len(),
                an == rules@[i as int].add_headers@.len(),
                spec_add_headers(
                    spec_header_views(hdrs1),
                    rules@[i as int].add_headers@,
                ) == spec_add_headers(
                    spec_header_views(headers@),
                    rules@[i as int].add_headers@.skip(k as int),
                ),
            decreases an - k,
        {
            proof {
                assert(rules@[i as int].add_headers@.skip(k as int).drop_first()
                    =~= rules@[i as int].add_headers@.skip(k as int + 1));
                assert(rules@[i as int].add_headers@.skip(k as int)[0] == rules@[i as int].add_headers@[k as int]);
            }
            let name = rules[i].add_headers[k].0.clone();
            let value = rules[i].add_headers[k].1.clone();
            upsert_header(headers, name, value);
            k += 1;
        }
        proof {
            assert(rules@[i as int].add_headers@.skip(an as int)
                =~= Seq::<(String, String)>::empty());
            assert(spec_header_views(headers@) == spec_rule_headers(
                spec_header_views(hdrs0),
                rules@[i as int],
            ));
        }
        i += 1;
    }
    proof {
        assert(rules@.skip(n as int) =~= Seq::<RequestModificationRule>::empty());
    }
    path
}

/// Splits a raw header line into name and value at the first `": "`, as a
/// header map entry; a line without one carries no header.
pub open spec fn spec_parse_header(line: Seq<char>) -> Option<(Seq<char>, Seq<char>)> {
    let k = spec_find_sub(line, seq![':', ' '], 0);
    if k == -1 {
        None
    } else {
        Some((line.take(k), line.skip(k + 2)))
    }
}

/// A line with its single trailing carriage return removed.
pub open spec fn spec_strip_cr(line: Seq<char>) -> Seq<char> {
    if line.len() > 0 && line.last() == '\r' {
        line.drop_last()
    } else {
        line
    }
}

/// Every result position of a find lies at or after `from` and leaves room
/// for the pattern.
pub proof fn lemma_find_sub_bounds(s: Seq<char>, pat: Seq<char>, from: nat)
    ensures
        spec_find_sub(s, pat, from) == -1 || (from <= spec_find_sub(s, pat, from)
            && spec_find_sub(s, pat, from) + pat.len() <= s.len()),
    decreases s.len() - from + 1,
{
    if from + pat.len() > s.len() {
    } else if s.subrange(from as int, from as int + pat.len() as int) == pat {
    } else {
        lemma_find_sub_bounds(s, pat, from + 1);
    }
}

/// The headers a run of raw lines (separated by line feeds, each with any
/// trailing carriage return removed) adds to `acc`, later same-named lines
/// overwriting earlier ones.
pub open spec fn spec_collect_headers(
    s: Seq<char>,
    acc: Seq<(Seq<char>, Seq<char>)>,
) -> Seq<(Seq<char>, Seq<char>)>
    decreases s.len(),
    via spec_collect_headers_decreases
{
    if s.len() == 0 {
        acc
    } else {
        let nl = spec_find_sub(s, seq!['\n'], 0);
        if nl == -1 {
            spec_collect_one(s, acc)
        } else {
            spec_collect_headers(s.skip(nl + 1), spec_collect_one(s.take(nl), acc))
        }
    }
}

#[via_fn]
proof fn spec_collect_headers_decreases(s: Seq<char>, acc: Seq<(Seq<char>, Seq<char>)>) {
    lemma_find_sub_bounds(s, seq!['\n'], 0);
}

/// What one raw line adds to the header list.
pub open spec fn spec_collect_one(
    line: Seq<char>,
    acc: Seq<(Seq<char>, Seq<char>)>,
) -> Seq<(Seq<char>, Seq<char>)> {
    match spec_parse_header(spec_strip_cr(line)) {
        Some(nv) => spec_upsert_header(acc, nv.0, nv.1),
        None => acc,
    }
}

/// Collects the headers of the raw header lines in `section`.
pub fn collect_headers(section: &str) -> (r: Vec<(String, String)>)
    ensures
        spec_header_views(r@) == spec_collect_headers(section@, Seq::empty()),
{
    proof {
        reveal_strlit("\n");
        assert("\n"@ =~= seq!['\n']);
    }
    let mut headers: Vec<(String, String)> = Vec::new();
    let mut rest: String = section.to_owned();
    proof {
        assert(spec_header_views(headers@) =~= Seq::<(Seq<char>, Seq<char>)>::empty());
    }
    loop
        invariant
            spec_collect_headers(section@, Seq::empty()) == spec_collect_headers(
                rest@,
                spec_header_views(headers@),
            ),
        decreases rest@.len(),
    {
        let len = rest.unicode_len();
        if len == 0 {
            return headers;
        }
        match find_substring_from(rest.as_str(), "\n", 0) {
            Some(nl) => {
                proof {
                    reveal_strlit("\n");
                    assert("\n"@ =~= seq!['\n']);
                    assert(spec_find_sub(rest@, seq!['\n'], 0) == nl as int);
                }
                let line = rest.as_str().substring_char(0, nl);
                proof {
                    assert(line@ =~= rest@.take(nl as int));
                }
                collect_one_line(line, &mut headers);
                let tail = rest.as_str().substring_char(nl + 1, len).to_owned();
                proof {
                    assert(tail@ =~= rest@.skip(nl as int + 1));
                }
                rest = tail;
            },
            None => {
                proof {
                    reveal_strlit("\n");
                    assert("\n"@ =~= seq!['\n']);
                    assert(spec_find_sub(rest@, seq!['\n'], 0) == -1);
                }
                collect_one_line(rest.as_str(), &mut headers);
                proof {
                    assert(spec_collect_headers(Seq::<char>::empty(), spec_header_views(headers@))
                        == spec_header_views(headers@));
                }
                return headers;
            },
        }
    }
}

/// Adds the header one raw line carries, if any.
fn collect_one_line(line: &str, headers: &mut Vec<(String, String)>)
    ensures
        spec_header_views(final(headers)@) == spec_collect_one(
            line@,
            spec_header_views(old(headers)@),
        ),
{
    proof {
        reveal_strlit(": ");
        assert(": "@ =~= seq![':', ' ']);
        reveal_strlit("\r");
        assert("\r"@ =~= seq!['\r']);
    }
    let len = line.unicode_len();
    let stripped: &str = if len > 0 && line.get_char(len - 1) == '\r' {
        let t = line.substring_char(0, len - 1);
        proof {
            assert(t@ =~= spec_strip_cr(line@));
        }
        t
    } else {
        line
    };
    let slen = stripped.unicode_len();
    match find_substring_from(stripped, ": ", 0) {
        Some(k) => {
            let name = stripped.substring_char(0, k).to_owned();
            let value = stripped.substring_char(k + 2, slen).to_owned();
            proof {
                assert(name@ =~= spec_strip_cr(line@).take(k as int));
                assert(value@ =~= spec_strip_cr(line@).skip(k as int + 2));
            }
            upsert_header(headers, name, value);
        },
        None => {},
    }
}

/// The rendered header block: one `Name: Value` line per header, each
/// ended by a carriage return and line feed.
pub open spec fn spec_render_headers(headers: Seq<(Seq<char>, Seq<char>)>) -> Seq<char>
    decreases headers.len(),
{
    if headers.len() == 0 {
        Seq::empty()
    } else {
        headers[0].0 + seq![':', ' '] + headers[0].1 + seq!['\r', '\n'] + spec_render_headers(
            headers.drop_first(),
        )
    }
}

/// The rebuilt request: the request line with the version fixed at
/// HTTP/1.1, the rendered headers, a blank line, and the body as it was.
pub open spec fn spec_render_request(
    method: Seq<char>,
    path: Seq<char>,
    headers: Seq<(Seq<char>, Seq<char>)>,
    body: Seq<char>,
) -> Seq<char> {
    method + seq![' '] + path + " HTTP/1.1\r\n"@ + spec_render_headers(headers) + seq!['\r', '\n']
        + body
}

/// Renders the rewritten request for forwarding.
pub fn render_request(
    method: &String,
    path: &String,
    headers: &Vec<(String, String)>,
    body: &str,
) -> (r: String)
    ensures
        r@ == spec_render_request(method@, path@, spec_header_views(headers@), body@),
{
    proof {
        reveal_strlit(" ");
        assert(" "@ =~= seq![' ']);
        reveal_strlit(": ");
        assert(": "@ =~= seq![':', ' ']);
        reveal_strlit("\r\n");
        assert("\r\n"@ =~= seq!['\r', '\n']);
    }
    let mut out: String = method.clone();
    out.append(" ");
    out.append(path.as_str());
    out.append(" HTTP/1.1\r\n");
    let n = headers.len();
    let mut i: usize = 0;
    let ghost prefix = out@;
    proof {
        assert(spec_header_views(headers@).skip(0) =~= spec_header_views(headers@));
    }
    while i < n
        invariant
            i <= n,
            n == headers@.len(),
            prefix + spec_render_headers(spec_header_views(headers@)) == out@
                + spec_render_headers(spec_header_views(headers@).skip(i as int)),
        decreases n - i,
    {
        proof {
            reveal_strlit(": ");
            assert(": "@ =~= seq![':', ' ']);
            reveal_strlit("\r\n");
            assert("\r\n"@ =~= seq!['\r', '\n']);
            assert(spec_header_views(headers@).skip(i as int).drop_first() =~= spec_header_views(
                headers@,
            ).skip(i as int + 1));
            assert(spec_header_views(headers@).skip(i as int)[0] == (
                headers@[i as int].0@,
                headers@[i as int].1@,
            ));
        }
        out.append(headers[i].0.as_str());
        out.append(": ");
        out.append(headers[i].1.as_str());
        out.append("\r\n");
        i += 1;
    }
    proof {
        assert(spec_header_views(headers@).skip(n as int)
            =~= Seq::<(Seq<char>, Seq<char>)>::empty());
    }
    out.append("\r\n");
    out.append(body);
    proof {
        assert(out@ =~= spec_render_request(method@, path@, spec_header_views(headers@), body@));
    }
    out
}

/// Where the header block of a raw request ends: at the first blank line,
/// or at the end when there is none.
pub open spec fn spec_header_split(s: Seq<char>) -> int {
    let p = spec_find_sub(s, seq!['\r', '\n', '\r', '\n'], 0);
    if p == -1 {
        s.len() as int
    } else {
        p
    }
}

/// Rewrites a raw request under the modification rules: the header block is
/// split off, the request line parsed, the headers collected, the rules
/// applied, and the request rendered anew with the version fixed at
/// HTTP/1.1 and the body bytes unchanged. A request whose first line does
/// not hold three tokens yields nothing.
pub fn rewrite_request(request: &str, rules: &Vec<RequestModificationRule>) -> (r: Option<String>)
    ensures
        ({
            let s = request@;
            let he = spec_header_split(s);
            let header_str = s.take(he);
            let body = s.skip(he);
            let fl = spec_find_sub(header_str, seq!['\n'], 0);
            let raw_line = if fl == -1 {
                header_str
            } else {
                header_str.take(fl)
            };
            let line = spec_strip_cr(raw_line);
            let rest = if fl == -1 {
                Seq::<char>::empty()
            } else {
                header_str.skip(fl + 1)
            };
            &&& (r is Some <==> spec_request_line_valid(line))
            &&& (r matches Some(out) ==> out@ == ({
                let collected = spec_collect_headers(rest, Seq::empty());
                let applied = spec_apply_rules(spec_request_path(line), collected, rules@);
                spec_render_request(spec_request_method(line), applied.0, applied.1, body)
            }))
        }),
{
    proof {
        reveal_strlit("\r\n\r\n");
        assert("\r\n\r\n"@ =~= seq!['\r', '\n', '\r', '\n']);
        reveal_strlit("\n");
        assert("\n"@ =~= seq!['\n']);
        reveal_strlit("");
        assert(""@ =~= Seq::<char>::empty());
    }
    let slen = request.unicode_len();
    let he = match find_substring_from(request, "\r\n\r\n", 0) {
        Some(p) => p,
        None => slen,
    };
    let header_str = request.substring_char(0, he);
    let body = request.substring_char(he, slen);
    proof {
        assert(header_str@ =~= request@.take(spec_header_split(request@)));
        assert(body@ =~= request@.skip(spec_header_split(request@)));
    }
    let hlen = header_str.unicode_len();
    let (raw_line, rest): (&str, &str) = match find_substring_from(header_str, "\n", 0) {
        Some(fl) => (header_str.substring_char(0, fl), header_str.substring_char(fl + 1, hlen)),
        None => (header_str, ""),
    };
    proof {
        let hs = request@.take(spec_header_split(request@));
        let fl = spec_find_sub(hs, seq!['\n'], 0);
        if fl == -1 {
            assert(raw_line@ =~= hs);
            assert(rest@ =~= Seq::<char>::empty());
        } else {
            assert(raw_line@ =~= hs.take(fl));
            assert(rest@ =~= hs.skip(fl + 1));
        }
    }
    let rlen = raw_line.unicode_len();
    let line: &str = if rlen > 0 && raw_line.get_char(rlen - 1) == '\r' {
        let t = raw_line.substring_char(0, rlen - 1);
        proof {
            assert(t@ =~= spec_strip_cr(raw_line@));
        }
        t
    } else {
        raw_line
    };
    match parse_request_line(line) {
        None => None,
        Some((method, path)) => {
            let mut headers = collect_headers(rest);
            let new_path = apply_modification_rules(path, &mut headers, rules);
            Some(render_request(&method, &new_path, &headers, body))
        },
    }
}

} // verus!
