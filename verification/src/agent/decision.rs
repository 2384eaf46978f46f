//! Reading the action an agent chose from the text a model produced.
use vstd::prelude::*;

use crate::error::{Result, TinyError};
use crate::text::{
    chars_of, eq_ignore_ascii_case, is_whitespace, is_ws, push_str,
    range_eq_ignore_ascii_case, skip_ws_forward, string_of, trim, trim_range, trim_start,
};
use crate::tools::ToolRegistry;

verus! {

/// The action an agent chose: a registered tool, or the final answer.
#[derive(Debug, Clone, PartialEq, Eq)]
pub enum AgentDecision {
    Tool(String),
    Final,
}

/// The mathematical contents of an [`AgentDecision`].
pub enum DecisionView {
    Tool(Seq<char>),
    Final,
}

impl View for AgentDecision {
    type V = DecisionView;

    open spec fn view(&self) -> DecisionView {
        match self {
            AgentDecision::Tool(name) => DecisionView::Tool(name@),
            AgentDecision::Final => DecisionView::Final,
        }
    }
}

impl AgentDecision {
    /// The chosen tool's name, if a tool was chosen.
    pub fn tool_name(&self) -> (r: Option<&str>)
        ensures
            r is Some <==> self is Tool,
            r matches Some(n) ==> self@ == DecisionView::Tool(n@),
    {
        match self {
            AgentDecision::Tool(name) => Some(name.as_str()),
            AgentDecision::Final => None,
        }
    }

    /// Whether the final answer was chosen.
    pub fn is_final(&self) -> (b: bool)
        ensures
            b == (self is Final),
    {
        match self {
            AgentDecision::Tool(_) => false,
            AgentDecision::Final => true,
        }
    }
}

/// `char::is_alphanumeric` on `c`.
pub uninterp spec fn char_is_alphanumeric(c: char) -> bool;

/// `char::is_alphanumeric`: whether `c` is alphabetic or numeric in the
/// Unicode sense. The property tables are not restated; the result is named.
#[verifier::external_body]
fn is_alphanumeric(c: char) -> (b: bool)
    ensures
        b == char_is_alphanumeric(c),
{
    c.is_alphanumeric()
}

/// The classes of characters the decision reader skips over or stops at.
pub enum CharClass {
    /// A list marker: `-`, `*`, `•` or a backtick.
    Marker,
    /// A list marker or white space.
    MarkerOrSpace,
    /// An ASCII digit.
    Digit,
    /// A quote: backtick, `"` or `'`.
    Quote,
    /// Anything but a line feed.
    NotNewline,
    /// Anything but white space, `:`, `,`, `.` or `;`.
    NotSeparator,
    /// Anything but white space.
    NotSpace,
    /// Neither alphanumeric nor `_`.
    NotWord,
}

/// Whether `c` belongs to class `k`.
pub open spec fn in_class(k: CharClass, c: char) -> bool {
    match k {
        CharClass::Marker => c == '-' || c == '*' || c == '•' || c == '`',
        CharClass::MarkerOrSpace => c == '-' || c == '*' || c == '•' || c == '`' || is_ws(c),
        CharClass::Digit => '0' <= c <= '9',
        CharClass::Quote => c == '`' || c == '"' || c == '\'',
        CharClass::NotNewline => c != '\n',
        CharClass::NotSeparator => !(is_ws(c) || c == ':' || c == ',' || c == '.' || c == ';'),
        CharClass::NotSpace => !is_ws(c),
        CharClass::NotWord => !(char_is_alphanumeric(c) || c == '_'),
    }
}

fn class_has(k: &CharClass, c: char) -> (b: bool)
    ensures
        b == in_class(*k, c),
{
    match k {
        CharClass::Marker => c == '-' || c == '*' || c == '•' || c == '`',
        CharClass::MarkerOrSpace => c == '-' || c == '*' || c == '•' || c == '`' || is_whitespace(c),
        CharClass::Digit => '0' <= c && c <= '9',
        CharClass::Quote => c == '`' || c == '"' || c == '\'',
        CharClass::NotNewline => c != '\n',
        CharClass::NotSeparator => !(is_whitespace(c) || c == ':' || c == ',' || c == '.' || c == ';'),
        CharClass::NotSpace => !is_whitespace(c),
        CharClass::NotWord => !(is_alphanumeric(c) || c == '_'),
    }
}

/// The number of leading characters of `s` in class `k`.
pub open spec fn lead_len(s: Seq<char>, k: CharClass) -> nat
    decreases s.len(),
{
    if s.len() > 0 && in_class(k, s[0]) {
        1 + lead_len(s.drop_first(), k)
    } else {
        0
    }
}

/// The number of trailing characters of `s` in class `k`.
pub open spec fn trail_len(s: Seq<char>, k: CharClass) -> nat
    decreases s.len(),
{
    if s.len() > 0 && in_class(k, s.last()) {
        1 + trail_len(s.drop_last(), k)
    } else {
        0
    }
}

pub proof fn lemma_lead_len_bound(s: Seq<char>, k: CharClass)
    ensures
        lead_len(s, k) <= s.len(),
    decreases s.len(),
{
    if s.len() > 0 {
        lemma_lead_len_bound(s.drop_first(), k);
    }
}

/// `s` without its leading and then its trailing characters of class `k`,
/// as `str::trim_matches` gives it.
pub open spec fn trim_matches(s: Seq<char>, k: CharClass) -> Seq<char> {
    let rest = s.skip(lead_len(s, k) as int);
    rest.take(rest.len() - trail_len(rest, k))
}

/// The end of the run of class-`k` characters that starts at `start`.
fn lead_end(chars: &Vec<char>, start: usize, end: usize, k: &CharClass) -> (r: usize)
    requires
        start <= end <= chars.len(),
    ensures
        start <= r <= end,
        r - start == lead_len(chars@.subrange(start as int, end as int), *k),
    decreases end - start,
{
    if start < end && class_has(k, chars[start]) {
        assert(chars@.subrange(start as int, end as int).drop_first() =~= chars@.subrange(
            start + 1,
            end as int,
        ));
        lead_end(chars, start + 1, end, k)
    } else {
        start
    }
}

/// The start of the run of class-`k` characters that ends at `end`.
fn trail_start(chars: &Vec<char>, start: usize, end: usize, k: &CharClass) -> (r: usize)
    requires
        start <= end <= chars.len(),
    ensures
        start <= r <= end,
        end - r == trail_len(chars@.subrange(start as int, end as int), *k),
    decreases end - start,
{
    if start < end && class_has(k, chars[end - 1]) {
        assert(chars@.subrange(start as int, end as int).drop_last() =~= chars@.subrange(
            start as int,
            end - 1,
        ));
        trail_start(chars, start, end - 1, k)
    } else {
        end
    }
}

/// The bounds of `trim_matches(chars[start..end], k)` within `chars`.
fn trim_matches_range(chars: &Vec<char>, start: usize, end: usize, k: &CharClass) -> (r: (usize, usize))
    requires
        start <= end <= chars.len(),
    ensures
        start <= r.0 <= r.1 <= end,
        chars@.subrange(r.0 as int, r.1 as int) == trim_matches(chars@.subrange(start as int, end as int), *k),
{
    let a = lead_end(chars, start, end, k);
    let b = trail_start(chars, a, end, k);
    let ghost s = chars@.subrange(start as int, end as int);
    assert(s.skip(lead_len(s, *k) as int) =~= chars@.subrange(a as int, end as int));
    assert(chars@.subrange(a as int, end as int).take((end - a) - trail_len(chars@.subrange(a as int, end as int), *k)) =~= chars@.subrange(a as int, b as int));
    (a, b)
}


/// The word that chooses the final answer.
pub open spec fn final_word() -> Seq<char> {
    seq!['f', 'i', 'n', 'a', 'l']
}

/// What `s` chooses on its own: `final` in any ASCII case, or the tool of
/// exactly that name.
pub open spec fn direct_choice(s: Seq<char>, tools: Set<Seq<char>>) -> Option<DecisionView> {
    if eq_ignore_ascii_case(s, final_word()) {
        Some(DecisionView::Final)
    } else if tools.contains(s) {
        Some(DecisionView::Tool(s))
    } else {
        None
    }
}

/// `s` without a leading list marker and what follows it of markers and
/// white space.
pub open spec fn strip_markers(s: Seq<char>) -> Seq<char> {
    if s.len() > 0 && in_class(CharClass::Marker, s[0]) {
        s.skip(lead_len(s, CharClass::MarkerOrSpace) as int)
    } else {
        s
    }
}

/// `s` without a leading item number such as `1. ` or `2) `.
pub open spec fn strip_numbering(s: Seq<char>) -> Seq<char> {
    let d = lead_len(s, CharClass::Digit) as int;
    if d > 0 && d + 2 <= s.len() && (s[d] == '.' || s[d] == ')') && s[d + 1] == ' ' {
        trim_start(s.skip(d + 1))
    } else {
        s
    }
}

pub open spec fn next_action_prefix() -> Seq<char> {
    seq!['n', 'e', 'x', 't', ' ', 'a', 'c', 't', 'i', 'o', 'n', ':']
}

pub open spec fn action_prefix() -> Seq<char> {
    seq!['a', 'c', 't', 'i', 'o', 'n', ':']
}

pub open spec fn tool_prefix() -> Seq<char> {
    seq!['t', 'o', 'o', 'l', ':']
}

/// Whether `s` starts with `p`, ASCII letters compared case-insensitively.
pub open spec fn starts_with_ignore_case(s: Seq<char>, p: Seq<char>) -> bool {
    s.len() >= p.len() && eq_ignore_ascii_case(s.take(p.len() as int), p)
}

/// `s` without a leading `next action:`, `action:` or `tool:` (in any ASCII
/// case, the first that matches) and the white space after it.
pub open spec fn strip_action_prefix(s: Seq<char>) -> Seq<char> {
    if starts_with_ignore_case(s, next_action_prefix()) {
        trim_start(s.skip(12))
    } else if starts_with_ignore_case(s, action_prefix()) {
        trim_start(s.skip(7))
    } else if starts_with_ignore_case(s, tool_prefix()) {
        trim_start(s.skip(5))
    } else {
        s
    }
}

/// The trimmed text with list markers, item number, action prefix and
/// surrounding quotes removed.
pub open spec fn cleaned_action(t: Seq<char>) -> Seq<char> {
    trim(trim_matches(strip_action_prefix(strip_numbering(strip_markers(t))), CharClass::Quote))
}

/// The first line of `c`, trimmed.
pub open spec fn first_line(c: Seq<char>) -> Seq<char> {
    trim(c.take(lead_len(c, CharClass::NotNewline) as int))
}

/// The part of `line` before the first white space, `:`, `,`, `.` or `;`.
pub open spec fn first_token(line: Seq<char>) -> Seq<char> {
    trim(line.take(lead_len(line, CharClass::NotSeparator) as int))
}

/// The choice made by the first white-space separated word of `s` from
/// index `i` on that, stripped of leading and trailing characters that are
/// neither alphanumeric nor `_`, chooses on its own.
pub open spec fn scan_words(s: Seq<char>, i: int, tools: Set<Seq<char>>) -> Option<DecisionView>
    decreases s.len() - i,
{
    if i < 0 || i >= s.len() {
        None
    } else if is_ws(s[i]) {
        scan_words(s, i + 1, tools)
    } else {
        let j = i + lead_len(s.skip(i), CharClass::NotSpace);
        proof {
            lemma_lead_len_bound(s.skip(i), CharClass::NotSpace);
        }
        match direct_choice(trim_matches(s.subrange(i, j), CharClass::NotWord), tools) {
            Some(d) => Some(d),
            None => scan_words(s, j, tools),
        }
    }
}

/// The action `text` chooses among `tools`, trying in turn the trimmed
/// text, its cleaned form, the first token of its first line, and each word
/// of that line.
pub open spec fn decision_of(text: Seq<char>, tools: Set<Seq<char>>) -> Option<DecisionView> {
    let t = trim(text);
    let c = cleaned_action(t);
    let line = first_line(c);
    if direct_choice(t, tools) is Some {
        direct_choice(t, tools)
    } else if direct_choice(c, tools) is Some {
        direct_choice(c, tools)
    } else if direct_choice(first_token(line), tools) is Some {
        direct_choice(first_token(line), tools)
    } else {
        scan_words(line, 0, tools)
    }
}


/// The view of an optional decision.
pub open spec fn decision_opt_view(r: Option<AgentDecision>) -> Option<DecisionView> {
    match r {
        Some(d) => Some(d@),
        None => None,
    }
}

/// What `chars[start..end]` chooses on its own.
fn direct_range(
    chars: &Vec<char>,
    start: usize,
    end: usize,
    registry: &ToolRegistry,
    final_chars: &Vec<char>,
) -> (r: Option<AgentDecision>)
    requires
        start <= end <= chars.len(),
        registry.wf(),
        final_chars@ == final_word(),
    ensures
        decision_opt_view(r) == direct_choice(chars@.subrange(start as int, end as int), registry@.dom()),
{
    if range_eq_ignore_ascii_case(chars, start, end, final_chars) {
        return Some(AgentDecision::Final);
    }
    let name = string_of(chars, start, end);
    if registry.contains(name.as_str()) {
        Some(AgentDecision::Tool(name))
    } else {
        None
    }
}

/// Where `strip_markers(chars[start..end])` starts.
fn strip_markers_at(chars: &Vec<char>, start: usize, end: usize) -> (r: usize)
    requires
        start <= end <= chars.len(),
    ensures
        start <= r <= end,
        chars@.subrange(r as int, end as int) == strip_markers(chars@.subrange(start as int, end as int)),
{
    if start < end && class_has(&CharClass::Marker, chars[start]) {
        let r = lead_end(chars, start, end, &CharClass::MarkerOrSpace);
        assert(chars@.subrange(start as int, end as int).skip(r - start) =~= chars@.subrange(r as int, end as int));
        r
    } else {
        start
    }
}

/// Where `strip_numbering(chars[start..end])` starts.
fn strip_numbering_at(chars: &Vec<char>, start: usize, end: usize) -> (r: usize)
    requires
        start <= end <= chars.len(),
    ensures
        start <= r <= end,
        chars@.subrange(r as int, end as int) == strip_numbering(chars@.subrange(start as int, end as int)),
{
    let ghost s = chars@.subrange(start as int, end as int);
    let d_end = lead_end(chars, start, end, &CharClass::Digit);
    if d_end > start && end - d_end >= 2 && (chars[d_end] == '.' || chars[d_end] == ')')
        && chars[d_end + 1] == ' ' {
        assert(s[d_end - start] == chars@[d_end as int]);
        assert(s[d_end - start + 1] == chars@[d_end + 1]);
        assert(s.skip(d_end - start + 1) =~= chars@.subrange(d_end + 1, end as int));
        skip_ws_forward(chars, d_end + 1, end)
    } else {
        proof {
            if d_end > start && end - d_end >= 2 {
                assert(s[d_end - start] == chars@[d_end as int]);
                assert(s[d_end - start + 1] == chars@[d_end + 1]);
            }
        }
        start
    }
}

/// Whether `chars[start..end]` starts with `prefix`, ignoring ASCII case.
fn starts_with_at(chars: &Vec<char>, start: usize, end: usize, prefix: &Vec<char>) -> (b: bool)
    requires
        start <= end <= chars.len(),
    ensures
        b == starts_with_ignore_case(chars@.subrange(start as int, end as int), prefix@),
{
    if end - start < prefix.len() {
        return false;
    }
    assert(chars@.subrange(start as int, end as int).take(prefix@.len() as int) =~= chars@.subrange(
        start as int,
        start + prefix@.len(),
    ));
    range_eq_ignore_ascii_case(chars, start, start + prefix.len(), prefix)
}

/// Where `strip_action_prefix(chars[start..end])` starts.
fn strip_action_prefix_at(
    chars: &Vec<char>,
    start: usize,
    end: usize,
    next_action: &Vec<char>,
    action: &Vec<char>,
    tool: &Vec<char>,
) -> (r: usize)
    requires
        start <= end <= chars.len(),
        next_action@ == next_action_prefix(),
        action@ == action_prefix(),
        tool@ == tool_prefix(),
    ensures
        start <= r <= end,
        chars@.subrange(r as int, end as int) == strip_action_prefix(chars@.subrange(start as int, end as int)),
{
    let ghost s = chars@.subrange(start as int, end as int);
    if starts_with_at(chars, start, end, next_action) {
        assert(s.skip(12) =~= chars@.subrange(start + 12, end as int));
        skip_ws_forward(chars, start + 12, end)
    } else if starts_with_at(chars, start, end, action) {
        assert(s.skip(7) =~= chars@.subrange(start + 7, end as int));
        skip_ws_forward(chars, start + 7, end)
    } else if starts_with_at(chars, start, end, tool) {
        assert(s.skip(5) =~= chars@.subrange(start + 5, end as int));
        skip_ws_forward(chars, start + 5, end)
    } else {
        start
    }
}

/// The choice made by the words of `line` from index `i` on.
fn scan_words_from(line: &Vec<char>, i: usize, registry: &ToolRegistry, final_chars: &Vec<char>) -> (r: Option<AgentDecision>)
    requires
        i <= line.len(),
        registry.wf(),
        final_chars@ == final_word(),
    ensures
        decision_opt_view(r) == scan_words(line@, i as int, registry@.dom()),
    decreases line.len() - i,
{
    if i >= line.len() {
        return None;
    }
    if is_whitespace(line[i]) {
        return scan_words_from(line, i + 1, registry, final_chars);
    }
    let j = lead_end(line, i, line.len(), &CharClass::NotSpace);
    assert(line@.skip(i as int) =~= line@.subrange(i as int, line@.len() as int));
    assert(line@.subrange(i as int, line@.len() as int)[0] == line@[i as int]);
    let (a, b) = trim_matches_range(line, i, j, &CharClass::NotWord);
    match direct_range(line, a, b, registry, final_chars) {
        Some(d) => Some(d),
        None => scan_words_from(line, j, registry, final_chars),
    }
}

/// The action `text` chooses among the registered tools, read as
/// [`decision_of`] describes.
pub fn decide_agent_action(text: &str, registry: &ToolRegistry) -> (r: Option<AgentDecision>)
    requires
        registry.wf(),
    ensures
        decision_opt_view(r) == decision_of(text@, registry@.dom()),
{
    let chars = chars_of(text);
    let final_chars = chars_of("final");
    let next_action = chars_of("next action:");
    let action = chars_of("action:");
    let tool = chars_of("tool:");
    proof {
        reveal_strlit("final");
        reveal_strlit("next action:");
        reveal_strlit("action:");
        reveal_strlit("tool:");
    }
    assert(final_chars@ =~= final_word());
    assert(next_action@ =~= next_action_prefix());
    assert(action@ =~= action_prefix());
    assert(tool@ =~= tool_prefix());
    let ghost tools = registry@.dom();
    let n = chars.len();
    assert(chars@.subrange(0, n as int) =~= chars@);
    let (t0, t1) = trim_range(&chars, 0, n);
    let ghost t = chars@.subrange(t0 as int, t1 as int);
    match direct_range(&chars, t0, t1, registry, &final_chars) {
        Some(d) => {
            return Some(d);
        },
        None => {},
    }
    let m = strip_markers_at(&chars, t0, t1);
    let nu = strip_numbering_at(&chars, m, t1);
    let pa = strip_action_prefix_at(&chars, nu, t1, &next_action, &action, &tool);
    let (q0, q1) = trim_matches_range(&chars, pa, t1, &CharClass::Quote);
    let (c0, c1) = trim_range(&chars, q0, q1);
    let ghost c = chars@.subrange(c0 as int, c1 as int);
    assert(c == cleaned_action(t));
    match direct_range(&chars, c0, c1, registry, &final_chars) {
        Some(d) => {
            return Some(d);
        },
        None => {},
    }
    let nl = lead_end(&chars, c0, c1, &CharClass::NotNewline);
    assert(c.take(nl - c0) =~= chars@.subrange(c0 as int, nl as int));
    let (l0, l1) = trim_range(&chars, c0, nl);
    let ghost line = chars@.subrange(l0 as int, l1 as int);
    assert(line == first_line(c));
    let te = lead_end(&chars, l0, l1, &CharClass::NotSeparator);
    assert(line.take(te - l0) =~= chars@.subrange(l0 as int, te as int));
    let (k0, k1) = trim_range(&chars, l0, te);
    assert(chars@.subrange(k0 as int, k1 as int) == first_token(line));
    match direct_range(&chars, k0, k1, registry, &final_chars) {
        Some(d) => {
            return Some(d);
        },
        None => {},
    }
    let words = vstd::slice::slice_to_vec(vstd::slice::slice_subrange(chars.as_slice(), l0, l1));
    assert(words@ =~= line);
    scan_words_from(&words, 0, registry, &final_chars)
}


#[verifier::external_type_specification]
#[verifier::external_body]
pub struct ExJsonError(serde_json::Error);

/// `serde_json::from_str::<String>` on `text`: the string a JSON string
/// literal denotes, or `None` where `text` is not one.
pub uninterp spec fn json_string_value(text: Seq<char>) -> Option<Seq<char>>;

/// `serde_json::from_str::<String>`: decodes a JSON string literal. The
/// grammar and escapes of JSON are not restated; the result is named.
#[verifier::external_body]
fn decode_json_string(text: &str) -> (r: core::result::Result<String, serde_json::Error>)
    ensures
        r is Ok <==> json_string_value(text@) is Some,
        r matches Ok(s) ==> json_string_value(text@) == Some(s@),
{
    serde_json::from_str::<String>(text)
}

/// Whether `t` starts and ends with a double quote.
pub open spec fn is_quoted(t: Seq<char>) -> bool {
    t.len() > 0 && t[0] == '"' && t.last() == '"'
}

/// The text a decision is read from: a quoted reply is decoded as a JSON
/// string when it is one, and taken as it is otherwise.
pub open spec fn decision_text(t: Seq<char>) -> Seq<char> {
    if is_quoted(t) {
        match json_string_value(t) {
            Some(v) => v,
            None => t,
        }
    } else {
        t
    }
}

/// Reads the action chosen in a model's reply `raw`: after trimming, a
/// quoted reply is decoded as a JSON string, and the text is read as
/// [`decide_agent_action`] does. An empty reply, or one that names neither
/// `final` nor a registered tool, is an error.
pub fn parse_agent_decision(raw: &str, registry: &ToolRegistry) -> (r: Result<AgentDecision>)
    requires
        registry.wf(),
    ensures
        r is Ok <==> trim(raw@).len() > 0 && decision_of(decision_text(trim(raw@)), registry@.dom()) is Some,
        r matches Ok(d) ==> decision_of(decision_text(trim(raw@)), registry@.dom()) == Some(d@),
        r matches Err(e) ==> e matches TinyError::Tool(m) && m@ == if trim(raw@).len() == 0 {
            "agent produced an empty decision"@
        } else {
            "agent selected unknown action `"@ + trim(raw@) + "`"@
        },
{
    let chars = chars_of(raw);
    let n = chars.len();
    assert(chars@.subrange(0, n as int) =~= chars@);
    let (t0, t1) = trim_range(&chars, 0, n);
    if t0 == t1 {
        return Err(TinyError::Tool("agent produced an empty decision".to_string()));
    }
    let trimmed = string_of(&chars, t0, t1);
    let quoted = chars[t0] == '"' && chars[t1 - 1] == '"';
    assert(quoted == is_quoted(trimmed@));
    let text = if quoted {
        match decode_json_string(trimmed.as_str()) {
            Ok(v) => v,
            Err(_) => string_of(&chars, t0, t1),
        }
    } else {
        string_of(&chars, t0, t1)
    };
    match decide_agent_action(text.as_str(), registry) {
        Some(d) => Ok(d),
        None => {
            let mut message = "agent selected unknown action `".to_string();
            push_str(&mut message, trimmed.as_str());
            push_str(&mut message, "`");
            Err(TinyError::Tool(message))
        },
    }
}


proof fn lemma_scan_words_registered(s: Seq<char>, i: int, tools: Set<Seq<char>>)
    ensures
        scan_words(s, i, tools) matches Some(DecisionView::Tool(n)) ==> tools.contains(n),
    decreases s.len() - i,
{
    if 0 <= i < s.len() {
        if is_ws(s[i]) {
            lemma_scan_words_registered(s, i + 1, tools);
        } else {
            let j = i + lead_len(s.skip(i), CharClass::NotSpace);
            lemma_lead_len_bound(s.skip(i), CharClass::NotSpace);
            lemma_scan_words_registered(s, j, tools);
        }
    }
}

/// A decision never names a tool that is not registered.
pub proof fn lemma_decision_names_registered_tool(text: Seq<char>, tools: Set<Seq<char>>)
    ensures
        decision_of(text, tools) matches Some(DecisionView::Tool(n)) ==> tools.contains(n),
{
    lemma_scan_words_registered(first_line(cleaned_action(trim(text))), 0, tools);
}


/// A reply that is `final` in any ASCII case, up to surrounding white
/// space, chooses the final answer.
pub proof fn lemma_final_word_chooses_final(text: Seq<char>, tools: Set<Seq<char>>)
    requires
        eq_ignore_ascii_case(trim(text), final_word()),
    ensures
        decision_of(text, tools) == Some(DecisionView::Final),
{
}

/// A reply that is exactly a registered tool's name, up to surrounding
/// white space, chooses that tool (unless the name reads `final`).
pub proof fn lemma_tool_name_chooses_tool(text: Seq<char>, tools: Set<Seq<char>>)
    requires
        tools.contains(trim(text)),
        !eq_ignore_ascii_case(trim(text), final_word()),
    ensures
        decision_of(text, tools) == Some(DecisionView::Tool(trim(text))),
{
}


/// Whether `s[a..b)` is a word of `s`: a longest run of characters that
/// are not white space.
pub open spec fn is_word(s: Seq<char>, a: int, b: int) -> bool {
    &&& 0 <= a < b <= s.len()
    &&& forall|k: int| a <= k < b ==> !is_ws(#[trigger] s[k])
    &&& (a == 0 || is_ws(s[a - 1]))
    &&& (b == s.len() || is_ws(s[b]))
}

/// What the word `s[a..b)` chooses on its own, stripped of leading and
/// trailing characters that are neither alphanumeric nor `_`.
pub open spec fn word_choice(s: Seq<char>, a: int, b: int, tools: Set<Seq<char>>) -> Option<DecisionView> {
    direct_choice(trim_matches(s.subrange(a, b), CharClass::NotWord), tools)
}

proof fn lemma_lead_len_props(t: Seq<char>, k: CharClass)
    ensures
        lead_len(t, k) <= t.len(),
        forall|m: int| 0 <= m < lead_len(t, k) ==> in_class(k, #[trigger] t[m]),
        lead_len(t, k) < t.len() ==> !in_class(k, t[lead_len(t, k) as int]),
    decreases t.len(),
{
    if t.len() > 0 && in_class(k, t[0]) {
        let r = t.drop_first();
        lemma_lead_len_props(r, k);
        assert forall|m: int| 0 <= m < lead_len(t, k) implies in_class(k, #[trigger] t[m]) by {
            if m > 0 {
                assert(t[m] == r[m - 1]);
            }
        }
        if lead_len(t, k) < t.len() {
            assert(t[lead_len(t, k) as int] == r[lead_len(r, k) as int]);
        }
    }
}

/// Scanning the words of `s` from a word boundary `i` finds the choice of
/// the first word (from `i` on) that chooses, and nothing where none does.
proof fn lemma_scan_words_earliest(s: Seq<char>, i: int, tools: Set<Seq<char>>)
    requires
        0 <= i <= s.len(),
        i == 0 || i == s.len() || is_ws(s[i - 1]) || is_ws(s[i]),
    ensures
        scan_words(s, i, tools) matches Some(d) ==> exists|a: int, b: int|
            #[trigger] is_word(s, a, b) && i <= a && word_choice(s, a, b, tools) == Some(d) && forall|a2: int, b2: int|
                #[trigger] is_word(s, a2, b2) && i <= a2 < a ==> word_choice(s, a2, b2, tools) is None,
        scan_words(s, i, tools) is None ==> forall|a: int, b: int|
            #[trigger] is_word(s, a, b) && i <= a ==> word_choice(s, a, b, tools) is None,
    decreases s.len() - i,
{
    if i == s.len() {
        assert forall|a: int, b: int| #[trigger] is_word(s, a, b) && i <= a implies word_choice(s, a, b, tools) is None by {
        }
    } else if is_ws(s[i]) {
        lemma_scan_words_earliest(s, i + 1, tools);
        assert forall|a: int, b: int| #[trigger] is_word(s, a, b) && i <= a implies i + 1 <= a by {
            if a == i {
                assert(!is_ws(s[a]));
            }
        }
    } else {
        let t = s.skip(i);
        lemma_lead_len_props(t, CharClass::NotSpace);
        let j = i + lead_len(t, CharClass::NotSpace);
        assert(t[0] == s[i]);
        assert forall|k: int| i <= k < j implies !is_ws(#[trigger] s[k]) by {
            assert(in_class(CharClass::NotSpace, t[k - i]));
        }
        if j < s.len() {
            assert(!in_class(CharClass::NotSpace, t[j - i]));
            assert(is_ws(s[j]));
        }
        assert(is_word(s, i, j));
        // Every word from `i` on is the word at `i` or starts at `j` or later.
        assert forall|a2: int, b2: int| #[trigger] is_word(s, a2, b2) && i <= a2 implies (a2 == i && b2 == j) || j <= a2 by {
            if a2 == i {
                if b2 > j {
                    assert(!is_ws(s[j]));
                } else if b2 < j {
                    assert(!is_ws(s[b2]));
                }
            } else if a2 < j {
                assert(!is_ws(s[a2 - 1]));
            }
        }
        lemma_scan_words_earliest(s, j, tools);
        assert(scan_words(s, i, tools) == match word_choice(s, i, j, tools) {
            Some(d) => Some(d),
            None => scan_words(s, j, tools),
        });
        if word_choice(s, i, j, tools) is None {
            if scan_words(s, j, tools) is Some {
                let d = scan_words(s, j, tools)->0;
                let (a, b) = choose|a: int, b: int|
                    #[trigger] is_word(s, a, b) && j <= a && word_choice(s, a, b, tools) == Some(d) && forall|
                        a2: int,
                        b2: int,
                    | #[trigger] is_word(s, a2, b2) && j <= a2 < a ==> word_choice(s, a2, b2, tools) is None;
                assert(is_word(s, a, b) && i <= a && word_choice(s, a, b, tools) == Some(d));
                assert forall|a2: int, b2: int| #[trigger] is_word(s, a2, b2) && i <= a2 < a implies word_choice(
                    s,
                    a2,
                    b2,
                    tools,
                ) is None by {
                    if a2 < j {
                        assert(a2 == i && b2 == j);
                    }
                }
            }
        }
    }
}

/// When neither the reply, its cleaned form nor the first token of its
/// first line chooses an action, the decision is that of the earliest word
/// of the first line that chooses one on its own, every earlier word
/// choosing nothing; where no word chooses, there is no decision.
pub proof fn lemma_decision_takes_earliest_word(text: Seq<char>, tools: Set<Seq<char>>)
    requires
        direct_choice(trim(text), tools) is None,
        direct_choice(cleaned_action(trim(text)), tools) is None,
        direct_choice(first_token(first_line(cleaned_action(trim(text)))), tools) is None,
    ensures
        ({
            let line = first_line(cleaned_action(trim(text)));
            &&& decision_of(text, tools) matches Some(d) ==> exists|a: int, b: int|
                #[trigger] is_word(line, a, b) && word_choice(line, a, b, tools) == Some(d) && forall|
                    a2: int,
                    b2: int,
                | #[trigger] is_word(line, a2, b2) && a2 < a ==> word_choice(line, a2, b2, tools) is None
            &&& decision_of(text, tools) is None ==> forall|a: int, b: int|
                #[trigger] is_word(line, a, b) ==> word_choice(line, a, b, tools) is None
        }),
{
    let line = first_line(cleaned_action(trim(text)));
    lemma_scan_words_earliest(line, 0, tools);
    assert(decision_of(text, tools) == scan_words(line, 0, tools));
    if scan_words(line, 0, tools) is Some {
        let d = scan_words(line, 0, tools)->0;
        let (a, b) = choose|a: int, b: int|
            #[trigger] is_word(line, a, b) && 0 <= a && word_choice(line, a, b, tools) == Some(d) && forall|a2: int, b2: int|
                #[trigger] is_word(line, a2, b2) && 0 <= a2 < a ==> word_choice(line, a2, b2, tools) is None;
        assert forall|a2: int, b2: int| #[trigger] is_word(line, a2, b2) && a2 < a implies word_choice(line, a2, b2, tools) is None by {
        }
    }
}

} // verus!
