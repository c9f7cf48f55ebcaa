use vstd::prelude::*;
use vstd::string::*;

use crate::text::{
    chars_of, find, find_from, find_from_exec, lemma_find_first, lemma_find_from_occurs,
    lemma_rfind_last, lemma_rfind_none, lemma_rfind_occurs, occurs_at, rfind, rfind_exec,
    slice_string, trim, trim_bounds,
};

verus! {

/// What one console line, or one frame, means to the relay.
#[derive(Clone, Debug, PartialEq, Eq)]
pub enum ConsoleEvent {
    Stats,
    ChatMessage { username: String, body: String },
    PlayerJoined { name: String },
    PlayerLeft { name: String },
    Redacted { content: String },
    Unclassified { raw: String },
}

/// A `ConsoleEvent` with its text as character sequences.
pub enum EventModel {
    Stats,
    ChatMessage { username: Seq<char>, body: Seq<char> },
    PlayerJoined { name: Seq<char> },
    PlayerLeft { name: Seq<char> },
    Redacted { content: Seq<char> },
    Unclassified { raw: Seq<char> },
}

impl View for ConsoleEvent {
    type V = EventModel;

    open spec fn view(&self) -> EventModel {
        match self {
            ConsoleEvent::Stats => EventModel::Stats,
            ConsoleEvent::ChatMessage { username, body } => EventModel::ChatMessage {
                username: username@,
                body: body@,
            },
            ConsoleEvent::PlayerJoined { name } => EventModel::PlayerJoined { name: name@ },
            ConsoleEvent::PlayerLeft { name } => EventModel::PlayerLeft { name: name@ },
            ConsoleEvent::Redacted { content } => EventModel::Redacted { content: content@ },
            ConsoleEvent::Unclassified { raw } => EventModel::Unclassified { raw: raw@ },
        }
    }
}

/// The delimiter that ends the timestamp and thread prefix of a console line.
pub open spec fn delimiter() -> Seq<char> {
    seq![']', ':', ' ']
}

pub open spec fn joined_suffix() -> Seq<char> {
    seq![' ', 'j', 'o', 'i', 'n', 'e', 'd', ' ', 't', 'h', 'e', ' ', 'g', 'a', 'm', 'e']
}

pub open spec fn left_suffix() -> Seq<char> {
    seq![' ', 'l', 'e', 'f', 't', ' ', 't', 'h', 'e', ' ', 'g', 'a', 'm', 'e']
}

/// The text that stands in for an address.
pub open spec fn placeholder() -> Seq<char> {
    seq!['(', 'r', 'e', 'd', 'a', 'c', 't', 'e', 'd', ')']
}

pub open spec fn is_digit(c: char) -> bool {
    '0' <= c && c <= '9'
}

/// How many digits follow one another in `s` from index `p` on.
pub open spec fn digit_run(s: Seq<char>, p: int) -> int
    decreases s.len() - p,
{
    if 0 <= p < s.len() && is_digit(s[p]) {
        1 + digit_run(s, p + 1)
    } else {
        0
    }
}

/// Where a group of one to three digits and a dot that starts at `p` ends, or -1.
pub open spec fn group_end(s: Seq<char>, p: int) -> int {
    let r = digit_run(s, p);
    if 1 <= r <= 3 && p + r < s.len() && s[p + r] == '.' {
        p + r + 1
    } else {
        -1
    }
}

/// Where an address of four dot-separated groups of one to three digits that
/// starts at `p` ends, or -1.
pub open spec fn address_end(s: Seq<char>, p: int) -> int {
    let a = group_end(s, p);
    let b = group_end(s, a);
    let c = group_end(s, b);
    let r = digit_run(s, c);
    if a < 0 || b < 0 || c < 0 || r < 1 {
        -1
    } else if r > 3 {
        c + 3
    } else {
        c + r
    }
}

/// `s` from index `i` on, with each address that the left-to-right scan meets
/// replaced by the placeholder.
pub open spec fn redact_from(s: Seq<char>, i: int) -> Seq<char>
    decreases s.len() - i,
{
    if i < 0 || i >= s.len() {
        Seq::empty()
    } else if i < address_end(s, i) <= s.len() {
        placeholder() + redact_from(s, address_end(s, i))
    } else {
        seq![s[i]] + redact_from(s, i + 1)
    }
}

/// How many addresses the scan of `redact_from` replaces.
pub open spec fn replaced_from(s: Seq<char>, i: int) -> nat
    decreases s.len() - i,
{
    if i < 0 || i >= s.len() {
        0
    } else if i < address_end(s, i) <= s.len() {
        1 + replaced_from(s, address_end(s, i))
    } else {
        replaced_from(s, i + 1)
    }
}

pub open spec fn redact(s: Seq<char>) -> Seq<char> {
    redact_from(s, 0)
}

pub open spec fn replaced(s: Seq<char>) -> nat {
    replaced_from(s, 0)
}

/// Where the join or leave notice in `c` starts, the one further left if both
/// occur, and whether it is a join.
pub open spec fn presence_notice(c: Seq<char>) -> Option<(int, bool)> {
    match (find(c, joined_suffix()), find(c, left_suffix())) {
        (Some(j), Some(l)) => if j < l {
            Some((j, true))
        } else {
            Some((l, false))
        },
        (Some(j), None) => Some((j, true)),
        (None, Some(l)) => Some((l, false)),
        (None, None) => None,
    }
}

/// The first `<` of `c` and the first `>` after it.
pub open spec fn chat_brackets(c: Seq<char>) -> Option<(int, int)> {
    match find(c, seq!['<']) {
        Some(u) => match find_from(c, seq!['>'], u + 1) {
            Some(g) => Some((u, g)),
            None => None,
        },
        None => None,
    }
}

/// What the text after the delimiter of a console line means.
pub open spec fn classify_content_spec(c: Seq<char>) -> EventModel {
    match chat_brackets(c) {
        Some((u, g)) => EventModel::ChatMessage {
            username: c.subrange(u + 1, g),
            body: c.subrange(if g + 2 <= c.len() { g + 2 } else { c.len() as int }, c.len() as int),
        },
        None => match presence_notice(c) {
            Some((p, true)) => EventModel::PlayerJoined { name: trim(c.subrange(0, p)) },
            Some((p, false)) => EventModel::PlayerLeft { name: trim(c.subrange(0, p)) },
            None => if replaced(c) > 0 {
                EventModel::Redacted { content: redact(c) }
            } else {
                EventModel::Unclassified { raw: c }
            },
        },
    }
}

/// The text after the last delimiter of `line`, if it has one.
pub open spec fn content_of(line: Seq<char>) -> Option<Seq<char>> {
    match rfind(line, delimiter()) {
        Some(i) => Some(line.subrange(i + 3, line.len() as int)),
        None => None,
    }
}

/// What a raw console line means.
pub open spec fn classify_spec(line: Seq<char>) -> EventModel {
    match content_of(line) {
        Some(c) => classify_content_spec(c),
        None => EventModel::Unclassified { raw: line },
    }
}

fn is_digit_char(c: char) -> (r: bool)
    ensures
        r == is_digit(c),
{
    '0' <= c && c <= '9'
}

fn digit_run_exec(s: &Vec<char>, p: usize) -> (r: usize)
    requires
        p <= s@.len(),
    ensures
        r == digit_run(s@, p as int),
        p + r <= s@.len(),
{
    let mut k = p;
    while k < s.len() && is_digit_char(s[k])
        invariant
            p <= k <= s@.len(),
            digit_run(s@, p as int) == (k - p) + digit_run(s@, k as int),
        decreases s.len() - k,
    {
        k += 1;
    }
    k - p
}

fn group_end_exec(s: &Vec<char>, p: usize) -> (r: Option<usize>)
    requires
        p <= s@.len(),
    ensures
        match r {
            Some(e) => e as int == group_end(s@, p as int) && p < e <= s@.len(),
            None => group_end(s@, p as int) == -1,
        },
{
    let len = s.len();
    let r = digit_run_exec(s, p);
    if 1 <= r && r <= 3 && p + r < s.len() && s[p + r] == '.' {
        Some(p + r + 1)
    } else {
        None
    }
}

fn address_end_exec(s: &Vec<char>, p: usize) -> (r: Option<usize>)
    requires
        p <= s@.len(),
    ensures
        match r {
            Some(e) => e as int == address_end(s@, p as int) && p < e <= s@.len(),
            None => address_end(s@, p as int) == -1,
        },
{
    let a = match group_end_exec(s, p) {
        Some(a) => a,
        None => return None,
    };
    let b = match group_end_exec(s, a) {
        Some(b) => b,
        None => {
            assert(group_end(s@, -1) == -1);
            return None;
        },
    };
    let c = match group_end_exec(s, b) {
        Some(c) => c,
        None => {
            assert(group_end(s@, -1) == -1);
            return None;
        },
    };
    let len = s.len();
    let r = digit_run_exec(s, c);
    if r < 1 {
        None
    } else if r > 3 {
        Some(c + 3)
    } else {
        Some(c + r)
    }
}

proof fn lemma_redact_skip(s: Seq<char>, from: int, i: int)
    requires
        0 <= from <= i < s.len(),
        address_end(s, i) <= i,
    ensures
        s.subrange(from, i) + redact_from(s, i) == s.subrange(from, i + 1) + redact_from(
            s,
            i + 1,
        ),
{
    assert(redact_from(s, i) == seq![s[i]] + redact_from(s, i + 1));
    assert(s.subrange(from, i + 1) =~= s.subrange(from, i) + seq![s[i]]);
}

/// `content` with each IPv4-shaped address replaced by the placeholder, and
/// how many were replaced.
pub fn redact_addresses(content: &str) -> (r: (String, usize))
    ensures
        r.0@ == redact(content@),
        r.1 == replaced(content@),
{
    let v = chars_of(content);
    let mut out = String::new();
    let mut from: usize = 0;
    let mut i: usize = 0;
    let mut n: usize = 0;
    while i < v.len()
        invariant
            v@ == content@,
            from <= i <= v@.len(),
            n <= i,
            out@ + v@.subrange(from as int, i as int) + redact_from(v@, i as int) == redact(v@),
            replaced(v@) == n + replaced_from(v@, i as int),
        decreases v.len() - i,
    {
        match address_end_exec(&v, i) {
            Some(e) => {
                let ghost before = out@;
                out.append(content.substring_char(from, i));
                out.append("(redacted)");
                proof {
                    reveal_strlit("(redacted)");
                    assert("(redacted)"@ =~= placeholder());
                    assert(redact_from(v@, i as int) == placeholder() + redact_from(v@, e as int));
                    assert(out@ =~= before + v@.subrange(from as int, i as int) + placeholder());
                    assert(v@.subrange(e as int, e as int) =~= Seq::<char>::empty());
                    assert(out@ + v@.subrange(e as int, e as int) + redact_from(v@, e as int)
                        =~= before + v@.subrange(from as int, i as int) + redact_from(
                        v@,
                        i as int,
                    ));
                }
                i = e;
                from = e;
                n += 1;
            },
            None => {
                proof {
                    lemma_redact_skip(v@, from as int, i as int);
                    assert(out@ + v@.subrange(from as int, i as int) + redact_from(v@, i as int)
                        =~= out@ + v@.subrange(from as int, i + 1) + redact_from(v@, i + 1));
                }
                i += 1;
            },
        }
    }
    let ghost before = out@;
    out.append(content.substring_char(from, i));
    assert(redact_from(v@, i as int) == Seq::<char>::empty());
    assert(out@ =~= before + v@.subrange(from as int, i as int) + redact_from(v@, i as int));
    (out, n)
}

/// Classifies the text that follows the delimiter of a console line: a chat
/// message, a join or leave notice, content with addresses to redact, or
/// anything else.
pub fn classify_content(content: &str) -> (r: ConsoleEvent)
    ensures
        r@ == classify_content_spec(content@),
{
    let v = chars_of(content);
    let len = v.len();
    let lt = vec!['<'];
    let gt = vec!['>'];
    assert(lt@ =~= seq!['<']);
    assert(gt@ =~= seq!['>']);
    if let Some(u) = find_from_exec(&v, &lt, 0) {
        assert(occurs_at(v@, seq!['<'], u as int)) by {
            lemma_find_from_occurs(v@, seq!['<'], 0);
        }
        if let Some(g) = find_from_exec(&v, &gt, u + 1) {
            proof {
                lemma_find_from_occurs(v@, seq!['>'], u + 1);
            }
            let username = slice_string(content, u + 1, g);
            let start = if len >= 2 && g <= len - 2 {
                g + 2
            } else {
                len
            };
            let body = slice_string(content, start, len);
            return ConsoleEvent::ChatMessage { username, body };
        }
    }
    let joined = vec![' ', 'j', 'o', 'i', 'n', 'e', 'd', ' ', 't', 'h', 'e', ' ', 'g', 'a', 'm', 'e'];
    let left = vec![' ', 'l', 'e', 'f', 't', ' ', 't', 'h', 'e', ' ', 'g', 'a', 'm', 'e'];
    assert(joined@ =~= joined_suffix());
    assert(left@ =~= left_suffix());
    let jp = find_from_exec(&v, &joined, 0);
    let lp = find_from_exec(&v, &left, 0);
    proof {
        lemma_find_from_occurs(v@, joined_suffix(), 0);
        lemma_find_from_occurs(v@, left_suffix(), 0);
    }
    let notice: Option<(usize, bool)> = match (jp, lp) {
        (Some(j), Some(l)) => if j < l {
            Some((j, true))
        } else {
            Some((l, false))
        },
        (Some(j), None) => Some((j, true)),
        (None, Some(l)) => Some((l, false)),
        (None, None) => None,
    };
    match notice {
        Some((p, is_join)) => {
            let (a, b) = trim_bounds(&v, 0, p);
            let name = slice_string(content, a, b);
            if is_join {
                ConsoleEvent::PlayerJoined { name }
            } else {
                ConsoleEvent::PlayerLeft { name }
            }
        },
        None => {
            let (redacted, n) = redact_addresses(content);
            if n > 0 {
                ConsoleEvent::Redacted { content: redacted }
            } else {
                ConsoleEvent::Unclassified { raw: String::from_str(content) }
            }
        },
    }
}

/// Classifies a raw console line by the text after its last delimiter; a line
/// without the delimiter is passed through whole.
pub fn classify(line: &str) -> (r: ConsoleEvent)
    ensures
        r@ == classify_spec(line@),
{
    let v = chars_of(line);
    let len = v.len();
    let delim = vec![']', ':', ' '];
    assert(delim@ =~= delimiter());
    match rfind_exec(&v, &delim) {
        Some(i) => {
            proof {
                lemma_rfind_occurs(v@, delimiter(), v@.len() as int);
            }
            let content = line.substring_char(i + 3, len);
            classify_content(content)
        },
        None => ConsoleEvent::Unclassified { raw: String::from_str(line) },
    }
}

/// A line without the delimiter is passed through whole, unclassified.
pub proof fn lemma_no_delimiter_is_unclassified(line: Seq<char>)
    requires
        forall|i: int| !occurs_at(line, delimiter(), i),
    ensures
        classify_spec(line) == (EventModel::Unclassified { raw: line }),
{
    lemma_rfind_none(line, delimiter(), line.len() as int);
}

/// A line made of any prefix, the delimiter, a name between `<` and `>`, a
/// space and a text is a chat message of that name and text, provided the
/// name holds no `>` and what follows the delimiter holds no other delimiter.
pub proof fn lemma_chat_line(prefix: Seq<char>, name: Seq<char>, text: Seq<char>)
    requires
        forall|i: int| 0 <= i < name.len() ==> name[i] != '>',
        forall|i: int|
            !occurs_at(seq!['<'] + name + seq!['>', ' '] + text, delimiter(), i),
    ensures
        classify_spec(prefix + delimiter() + seq!['<'] + name + seq!['>', ' '] + text)
            == (EventModel::ChatMessage { username: name, body: text }),
{
    let c = seq!['<'] + name + seq!['>', ' '] + text;
    let line = prefix + delimiter() + seq!['<'] + name + seq!['>', ' '] + text;
    let k = prefix.len() as int;
    assert(line =~= prefix + delimiter() + c);
    assert(line.subrange(k, k + 3) =~= delimiter());
    assert forall|j: int| k < j < line.len() implies !occurs_at(line, delimiter(), j) by {
        if j == k + 1 || j == k + 2 {
            if occurs_at(line, delimiter(), j) {
                assert(line.subrange(j, j + 3)[0] == ']');
            }
        } else if occurs_at(line, delimiter(), j) {
            assert(line.subrange(j, j + 3) =~= c.subrange(j - k - 3, j - k));
            assert(occurs_at(c, delimiter(), j - k - 3));
        }
    }
    lemma_rfind_last(line, delimiter(), k, line.len() as int);
    assert(line.subrange(k + 3, line.len() as int) =~= c);
    assert(c.subrange(0, 1) =~= seq!['<']);
    assert(find(c, seq!['<']) == Some(0int));
    let g = name.len() + 1int;
    assert(c.subrange(g, g + 1) =~= seq!['>']);
    assert forall|j: int| 1 <= j < g implies !occurs_at(c, seq!['>'], j) by {
        if occurs_at(c, seq!['>'], j) {
            assert(c.subrange(j, j + 1)[0] == '>');
            assert(c[j] == name[j - 1]);
        }
    }
    lemma_find_first(c, seq!['>'], 1, g);
    assert(c.subrange(1, g) =~= name);
    assert(c.subrange(g + 2, c.len() as int) =~= text);
}

pub open spec fn is_digit_or_dot(c: char) -> bool {
    is_digit(c) || c == '.'
}

proof fn lemma_digit_run_facts(s: Seq<char>, x: int)
    requires
        0 <= x <= s.len(),
    ensures
        0 <= digit_run(s, x),
        x + digit_run(s, x) <= s.len(),
        forall|d: int| x <= d < x + digit_run(s, x) ==> is_digit(s[d]),
        x + digit_run(s, x) < s.len() ==> !is_digit(s[x + digit_run(s, x)]),
    decreases s.len() - x,
{
    if x < s.len() && is_digit(s[x]) {
        lemma_digit_run_facts(s, x + 1);
    }
}

proof fn lemma_digit_run_exact(s: Seq<char>, x: int, r: int)
    requires
        0 <= x,
        0 <= r,
        x + r <= s.len(),
        forall|d: int| x <= d < x + r ==> is_digit(s[d]),
        x + r < s.len() ==> !is_digit(s[x + r]),
    ensures
        digit_run(s, x) == r,
    decreases r,
{
    if r > 0 {
        lemma_digit_run_exact(s, x + 1, r - 1);
    }
}

proof fn lemma_group_facts(s: Seq<char>, p: int)
    requires
        group_end(s, p) >= 0,
    ensures
        0 <= p,
        p < group_end(s, p) <= s.len(),
        forall|d: int| p <= d < group_end(s, p) ==> is_digit_or_dot(s[d]),
        is_digit(s[p]),
{
    lemma_digit_run_facts(s, p);
}

/// An address lies within the text, starts with a digit and is made of
/// digits and dots.
proof fn lemma_address_facts(s: Seq<char>, q: int)
    requires
        address_at(s, q),
    ensures
        0 <= q,
        q < address_end(s, q),
        address_end(s, q) <= s.len(),
        is_digit(s[q]),
        forall|d: int| q <= d < address_end(s, q) ==> is_digit_or_dot(s[d]),
{
    let a = group_end(s, q);
    let b = group_end(s, a);
    let c = group_end(s, b);
    lemma_group_facts(s, q);
    lemma_group_facts(s, a);
    lemma_group_facts(s, b);
    lemma_digit_run_facts(s, c);
}

proof fn lemma_group_transfer(t: Seq<char>, q: int, u: Seq<char>, p: int)
    requires
        group_end(t, q) >= 0,
        0 <= p,
        p + (group_end(t, q) - q) <= u.len(),
        forall|k: int| q <= k < group_end(t, q) ==> #[trigger] t[k] == u[p + (k - q)],
    ensures
        group_end(u, p) == p + (group_end(t, q) - q),
{
    let r = digit_run(t, q);
    lemma_digit_run_facts(t, q);
    assert(t[q + r] == u[p + r]);
    assert forall|d: int| p <= d < p + r implies is_digit(u[d]) by {
        assert(t[q + (d - p)] == u[p + (d - p)]);
    }
    lemma_digit_run_exact(u, p, r);
}

/// Whether an address starts at a place depends only on the characters of
/// the address: the same characters elsewhere start an address too.
proof fn lemma_address_transfer(t: Seq<char>, q: int, u: Seq<char>, p: int)
    requires
        address_at(t, q),
        0 <= p,
        p + (address_end(t, q) - q) <= u.len(),
        forall|k: int| q <= k < address_end(t, q) ==> #[trigger] t[k] == u[p + (k - q)],
    ensures
        address_at(u, p),
{
    let e = address_end(t, q);
    let a = group_end(t, q);
    let b = group_end(t, a);
    let c = group_end(t, b);
    lemma_group_facts(t, q);
    lemma_group_facts(t, a);
    lemma_group_facts(t, b);
    lemma_group_transfer(t, q, u, p);
    lemma_group_transfer(t, a, u, p + (a - q));
    lemma_group_transfer(t, b, u, p + (b - q));
    lemma_digit_run_facts(t, c);
    assert(t[q + (c - q)] == u[p + (c - q)]);
    lemma_digit_run_facts(u, p + (c - q) + 1);
}

proof fn lemma_placeholder_has_no_digit()
    ensures
        forall|k: int| 0 <= k < placeholder().len() ==> !is_digit(#[trigger] placeholder()[k]),
{
}

/// An address starts at `p` in `s`.
pub open spec fn address_at(s: Seq<char>, p: int) -> bool {
    address_end(s, p) >= 0
}

/// No place of `t` starts an address.
pub open spec fn no_address(t: Seq<char>) -> bool {
    forall|j: int| !address_at(t, j)
}

/// The leading digits and dots of `t` are those of `s` from `i` on.
pub open spec fn leads_like(t: Seq<char>, s: Seq<char>, i: int) -> bool {
    forall|d: int|
        0 <= d < t.len() && #[trigger] digits_or_dots_upto(t, d) ==> i + d < s.len() && t[d] == s[i
            + d]
}

/// `t` holds only digits and dots up to index `d`.
pub open spec fn digits_or_dots_upto(t: Seq<char>, d: int) -> bool {
    forall|d2: int| 0 <= d2 <= d ==> is_digit_or_dot(#[trigger] t[d2])
}

proof fn lemma_clean_after_placeholder(rest: Seq<char>)
    requires
        no_address(rest),
    ensures
        no_address(placeholder() + rest),
{
    let t = placeholder() + rest;
    lemma_placeholder_has_no_digit();
    assert forall|j: int| !address_at(t, j) by {
        if address_at(t, j) {
            lemma_address_facts(t, j);
            if j >= 10 {
                assert forall|k: int| j <= k < address_end(t, j) implies #[trigger] t[k]
                    == rest[(j - 10) + (k - j)] by {}
                lemma_address_transfer(t, j, rest, j - 10);
            } else {
                assert(t[j] == placeholder()[j]);
            }
        }
    }
}

proof fn lemma_leads_after_copy(s: Seq<char>, i: int, rest: Seq<char>)
    requires
        0 <= i < s.len(),
        leads_like(rest, s, i + 1),
    ensures
        leads_like(seq![s[i]] + rest, s, i),
{
    let t = seq![s[i]] + rest;
    assert forall|d: int| 0 <= d < t.len() && #[trigger] digits_or_dots_upto(t, d) implies i + d
        < s.len() && t[d] == s[i + d] by {
        if d > 0 {
            assert forall|d2: int| 0 <= d2 <= d - 1 implies is_digit_or_dot(#[trigger] rest[d2]) by {
                assert(t[d2 + 1] == rest[d2]);
                assert(is_digit_or_dot(t[d2 + 1]));
            }
            assert(digits_or_dots_upto(rest, d - 1));
            assert(t[d] == rest[d - 1]);
        }
    }
}

proof fn lemma_clean_after_copy(s: Seq<char>, i: int, rest: Seq<char>)
    requires
        0 <= i < s.len(),
        !address_at(s, i),
        no_address(rest),
        leads_like(seq![s[i]] + rest, s, i),
    ensures
        no_address(seq![s[i]] + rest),
{
    let t = seq![s[i]] + rest;
    assert forall|j: int| !address_at(t, j) by {
        if address_at(t, j) {
            lemma_address_facts(t, j);
            if j >= 1 {
                assert forall|k: int| j <= k < address_end(t, j) implies #[trigger] t[k]
                    == rest[(j - 1) + (k - j)] by {}
                lemma_address_transfer(t, j, rest, j - 1);
            } else {
                let e0 = address_end(t, 0);
                assert forall|k: int| 0 <= k < e0 implies #[trigger] t[k] == s[i + (k - 0)] by {
                    assert(digits_or_dots_upto(t, k));
                }
                assert(digits_or_dots_upto(t, e0 - 1));
                lemma_address_transfer(t, 0, s, i);
            }
        }
    }
}

/// The scan's output from `i` on holds no address, and its leading digits
/// and dots are those of `s` from `i` on.
proof fn lemma_redact_from_clean(s: Seq<char>, i: int)
    requires
        0 <= i <= s.len(),
    ensures
        no_address(redact_from(s, i)),
        leads_like(redact_from(s, i), s, i),
    decreases s.len() - i,
{
    let t = redact_from(s, i);
    if i == s.len() {
        assert forall|j: int| !address_at(t, j) by {
            if address_at(t, j) {
                lemma_address_facts(t, j);
            }
        }
    } else if i < address_end(s, i) <= s.len() {
        let e = address_end(s, i);
        lemma_redact_from_clean(s, e);
        assert(t == placeholder() + redact_from(s, e));
        lemma_clean_after_placeholder(redact_from(s, e));
        assert(t[0] == '(');
        assert(!is_digit_or_dot(t[0]));
    } else {
        let rest = redact_from(s, i + 1);
        lemma_redact_from_clean(s, i + 1);
        assert(t == seq![s[i]] + rest);
        lemma_leads_after_copy(s, i, rest);
        if address_at(s, i) {
            lemma_address_facts(s, i);
        }
        lemma_clean_after_copy(s, i, rest);
    }
}

/// Redaction leaves no address behind: no place of the redacted text starts
/// an address.
pub proof fn lemma_redacted_has_no_address(s: Seq<char>)
    ensures
        no_address(redact(s)),
{
    lemma_redact_from_clean(s, 0);
}

/// No address-shaped text, such as `192.168.1.10`, occurs in redacted text.
pub proof fn lemma_redacted_omits_address(s: Seq<char>, addr: Seq<char>)
    requires
        address_at(addr, 0),
    ensures
        forall|j: int| !occurs_at(redact(s), addr, j),
{
    let t = redact(s);
    lemma_redacted_has_no_address(s);
    lemma_address_facts(addr, 0);
    assert forall|j: int| !occurs_at(t, addr, j) by {
        if occurs_at(t, addr, j) {
            assert forall|d: int| 0 <= d < address_end(addr, 0) implies #[trigger] addr[d] == t[j
                + (d - 0)] by {
                assert(t.subrange(j, j + addr.len())[d] == t[j + d]);
            }
            lemma_address_transfer(addr, 0, t, j);
        }
    }
}

proof fn lemma_clean_is_fixed(t: Seq<char>, i: int)
    requires
        0 <= i <= t.len(),
        no_address(t),
    ensures
        redact_from(t, i) == t.subrange(i, t.len() as int),
        replaced_from(t, i) == 0,
    decreases t.len() - i,
{
    if i < t.len() {
        assert(!address_at(t, i));
        lemma_clean_is_fixed(t, i + 1);
        assert(t.subrange(i, t.len() as int) =~= seq![t[i]] + t.subrange(i + 1, t.len() as int));
    } else {
        assert(t.subrange(i, t.len() as int) =~= Seq::<char>::empty());
    }
}

/// Redacting twice changes nothing more than redacting once: the placeholder
/// is never taken for an address, and nothing more is replaced.
pub proof fn lemma_redact_idempotent(s: Seq<char>)
    ensures
        redact(redact(s)) == redact(s),
        replaced(redact(s)) == 0,
{
    lemma_redacted_has_no_address(s);
    lemma_clean_is_fixed(redact(s), 0);
    assert(redact(s).subrange(0, redact(s).len() as int) =~= redact(s));
}

/// The content of a redacted event is stable: redacting it again finds no
/// address and changes nothing.
pub proof fn lemma_redacted_event_is_stable(line: Seq<char>)
    requires
        classify_spec(line) is Redacted,
    ensures
        redact(classify_spec(line)->Redacted_content) == classify_spec(line)->Redacted_content,
        replaced(classify_spec(line)->Redacted_content) == 0,
{
    let c = content_of(line)->0;
    lemma_redact_idempotent(c);
}

/// How many times `pat` occurs in `t` at or after `i`.
pub open spec fn count_from(t: Seq<char>, pat: Seq<char>, i: int) -> nat
    decreases t.len() - i,
{
    if i < 0 || i >= t.len() {
        0
    } else {
        (if occurs_at(t, pat, i) {
            1nat
        } else {
            0nat
        }) + count_from(t, pat, i + 1)
    }
}

proof fn lemma_count_shift(a: Seq<char>, b: Seq<char>, pat: Seq<char>, i: int)
    requires
        0 <= i,
    ensures
        count_from(a + b, pat, a.len() + i) == count_from(b, pat, i),
    decreases b.len() - i,
{
    if i < b.len() {
        let t = a + b;
        let n = a.len() + i;
        if n + pat.len() <= t.len() {
            assert(t.subrange(n, n + pat.len()) =~= b.subrange(i, i + pat.len()));
        }
        lemma_count_shift(a, b, pat, i + 1);
    }
}

proof fn lemma_count_skip(t: Seq<char>, pat: Seq<char>, i: int, j: int)
    requires
        0 <= i <= j,
        pat.len() > 0,
        forall|k: int| i <= k < j && k < t.len() ==> t[k] != pat[0],
    ensures
        count_from(t, pat, i) == count_from(t, pat, j),
    decreases j - i,
{
    if i < j {
        if i < t.len() && occurs_at(t, pat, i) {
            assert(t.subrange(i, i + pat.len())[0] == t[i]);
        }
        lemma_count_skip(t, pat, i + 1, j);
    }
}

proof fn lemma_count_redact_from(s: Seq<char>, i: int)
    requires
        0 <= i <= s.len(),
        forall|k: int| 0 <= k < s.len() ==> s[k] != '(',
    ensures
        count_from(redact_from(s, i), placeholder(), 0) == replaced_from(s, i),
    decreases s.len() - i,
{
    let t = redact_from(s, i);
    let p = placeholder();
    if i == s.len() {
    } else if i < address_end(s, i) <= s.len() {
        let e = address_end(s, i);
        let rest = redact_from(s, e);
        lemma_count_redact_from(s, e);
        assert(t == p + rest);
        assert(t.subrange(0, 10) =~= p);
        lemma_count_skip(t, p, 1, 10);
        lemma_count_shift(p, rest, p, 0);
    } else {
        let rest = redact_from(s, i + 1);
        lemma_count_redact_from(s, i + 1);
        assert(t == seq![s[i]] + rest);
        lemma_count_skip(t, p, 0, 1);
        lemma_count_shift(seq![s[i]], rest, p, 0);
    }
}

/// Where the content holds no `(`, the redacted text holds the placeholder
/// exactly once for each address replaced.
pub proof fn lemma_one_placeholder_per_address(s: Seq<char>)
    requires
        forall|k: int| 0 <= k < s.len() ==> s[k] != '(',
    ensures
        count_from(redact(s), placeholder(), 0) == replaced(s),
{
    lemma_count_redact_from(s, 0);
}

} // verus!
