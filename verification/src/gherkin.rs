//! Gherkin-style scenario parsing.
//!
//! A scenario is free-form text, one step per non-blank line. A line is
//! recognized when, after trimming, it starts (case-insensitively) with one
//! of the keywords `Given`, `When`, `Then`, `And`, `But`; everything after
//! the keyword, trimmed again, is the step's text, original casing kept.
//! Unrecognized lines are dropped silently and consume no order slot.
//! Step text may embed references of the form `${Domain.attribute}`.

use vstd::prelude::*;

verus! {

// ===================== characters =====================

/// ASCII whitespace, as removed by line trimming.
pub open spec fn is_space_char(c: char) -> bool {
    c == ' ' || c == '\t' || c == '\r' || c == '\n' || c == '\u{b}' || c == '\u{c}'
}

/// An ASCII upper-case letter.
pub open spec fn is_upper_char(c: char) -> bool {
    'A' as int <= c as int && c as int <= 'Z' as int
}

/// Case-insensitive character equality, folding only ASCII letters.
pub open spec fn char_eq_ci(a: char, b: char) -> bool {
    ||| a == b
    ||| (is_upper_char(a) && a as int + 32 == b as int)
    ||| (is_upper_char(b) && b as int + 32 == a as int)
}

/// A character allowed in a reference token: alphanumeric or underscore.
pub open spec fn is_token_char(c: char) -> bool {
    ||| ('a' as int <= c as int && c as int <= 'z' as int)
    ||| ('A' as int <= c as int && c as int <= 'Z' as int)
    ||| ('0' as int <= c as int && c as int <= '9' as int)
    ||| c == '_'
}

fn exec_is_space(c: char) -> (b: bool)
    ensures
        b == is_space_char(c),
{
    c == ' ' || c == '\t' || c == '\r' || c == '\n' || c == '\u{b}' || c == '\u{c}'
}

fn exec_is_token(c: char) -> (b: bool)
    ensures
        b == is_token_char(c),
{
    let u = c as u32;
    (97 <= u && u <= 122) || (65 <= u && u <= 90) || (48 <= u && u <= 57) || c == '_'
}

fn exec_char_eq_ci(a: char, b: char) -> (r: bool)
    ensures
        r == char_eq_ci(a, b),
{
    if a == b {
        true
    } else {
        let ua = a as u32;
        let ub = b as u32;
        (65 <= ua && ua <= 90 && ua + 32 == ub) || (65 <= ub && ub <= 90 && ub + 32 == ua)
    }
}

// ===================== trimming =====================

/// `s` without its leading whitespace.
pub open spec fn trim_front_chars(s: Seq<char>) -> Seq<char>
    decreases s.len(),
{
    if s.len() == 0 {
        s
    } else if is_space_char(s[0]) {
        trim_front_chars(s.skip(1))
    } else {
        s
    }
}

/// `s` without its trailing whitespace.
pub open spec fn trim_back_chars(s: Seq<char>) -> Seq<char>
    decreases s.len(),
{
    if s.len() == 0 {
        s
    } else if is_space_char(s[s.len() - 1]) {
        trim_back_chars(s.drop_last())
    } else {
        s
    }
}

/// `s` without leading and trailing whitespace.
pub open spec fn trim_chars(s: Seq<char>) -> Seq<char> {
    trim_back_chars(trim_front_chars(s))
}

proof fn lemma_trim_front_skip(s: Seq<char>, k: int)
    requires
        0 <= k <= s.len(),
        forall|i: int| 0 <= i < k ==> is_space_char(s[i]),
    ensures
        trim_front_chars(s) == trim_front_chars(s.skip(k)),
    decreases k,
{
    if k == 0 {
        assert(s.skip(0) =~= s);
    } else {
        assert(is_space_char(s[0]));
        assert(s.skip(1).skip(k - 1) =~= s.skip(k));
        lemma_trim_front_skip(s.skip(1), k - 1);
    }
}

proof fn lemma_trim_back_take(s: Seq<char>, e: int)
    requires
        0 <= e <= s.len(),
        forall|i: int| e <= i < s.len() ==> is_space_char(s[i]),
    ensures
        trim_back_chars(s) == trim_back_chars(s.take(e)),
    decreases s.len() - e,
{
    if e == s.len() {
        assert(s.take(e) =~= s);
    } else {
        assert(is_space_char(s[s.len() - 1]));
        assert(s.drop_last() =~= s.take(s.len() - 1));
        lemma_trim_back_take(s.take(s.len() - 1), e);
        assert(s.take(s.len() - 1).take(e) =~= s.take(e));
    }
}

/// Returns `s` with leading and trailing whitespace removed.
pub fn trim_str(s: &str) -> (r: String)
    ensures
        r@ == trim_chars(s@),
{
    let n = s.unicode_len();
    let mut start: usize = 0;
    while start < n && exec_is_space(s.get_char(start))
        invariant
            0 <= start <= n,
            n == s@.len(),
            forall|i: int| 0 <= i < start ==> is_space_char(s@[i]),
        decreases n - start,
    {
        start = start + 1;
    }
    let mut end: usize = n;
    while end > start && exec_is_space(s.get_char(end - 1))
        invariant
            start <= end <= n,
            n == s@.len(),
            forall|i: int| end <= i < n ==> is_space_char(s@[i]),
        decreases end,
    {
        end = end - 1;
    }
    proof {
        lemma_trim_front_skip(s@, start as int);
        let t = s@.skip(start as int);
        if start < n {
            assert(!is_space_char(t[0]));
            assert(trim_front_chars(t) == t);
        } else {
            assert(t.len() == 0);
        }
        // t is s@ from start; its whitespace tail begins at end - start.
        lemma_trim_back_take(t, end - start);
        assert(t.take(end - start) =~= s@.subrange(start as int, end as int));
        if end > start {
            let u = s@.subrange(start as int, end as int);
            assert(!is_space_char(u[u.len() - 1]));
            assert(trim_back_chars(u) == u);
        }
        assert(trim_chars(s@) =~= s@.subrange(start as int, end as int));
    }
    s.substring_char(start, end).to_owned()
}

// ===================== keywords =====================

/// The lower-case form of the `k`-th keyword, in priority order.
pub open spec fn keyword_lower(k: int) -> Seq<char> {
    if k == 0 {
        "given"@
    } else if k == 1 {
        "when"@
    } else if k == 2 {
        "then"@
    } else if k == 3 {
        "and"@
    } else {
        "but"@
    }
}

/// The title-case form of the `k`-th keyword.
pub open spec fn keyword_title(k: int) -> Seq<char> {
    if k == 0 {
        "Given"@
    } else if k == 1 {
        "When"@
    } else if k == 2 {
        "Then"@
    } else if k == 3 {
        "And"@
    } else {
        "But"@
    }
}

/// `line` starts with `kw`, compared case-insensitively character by
/// character.
pub open spec fn starts_with_ci(line: Seq<char>, kw: Seq<char>) -> bool {
    line.len() >= kw.len() && forall|i: int| 0 <= i < kw.len() ==> char_eq_ci(line[i], kw[i])
}

/// The first keyword (in priority order) that opens the trimmed line, if any.
pub open spec fn matched_keyword(line: Seq<char>) -> Option<int> {
    if starts_with_ci(line, keyword_lower(0)) {
        Some(0int)
    } else if starts_with_ci(line, keyword_lower(1)) {
        Some(1int)
    } else if starts_with_ci(line, keyword_lower(2)) {
        Some(2int)
    } else if starts_with_ci(line, keyword_lower(3)) {
        Some(3int)
    } else if starts_with_ci(line, keyword_lower(4)) {
        Some(4int)
    } else {
        None
    }
}

/// The step recognized on one raw line, if any: the pair of the step's
/// lower-case keyword and its text.
pub open spec fn line_step(raw: Seq<char>) -> Option<(Seq<char>, Seq<char>)> {
    let t = trim_chars(raw);
    match matched_keyword(t) {
        Some(k) => Some(
            (keyword_lower(k), trim_chars(t.skip(keyword_lower(k).len() as int))),
        ),
        None => None,
    }
}

fn exec_starts_with_ci(line: &str, kw: &str) -> (b: bool)
    ensures
        b == starts_with_ci(line@, kw@),
{
    let n = line.unicode_len();
    let m = kw.unicode_len();
    if n < m {
        return false;
    }
    let mut i: usize = 0;
    while i < m
        invariant
            0 <= i <= m,
            m <= n,
            n == line@.len(),
            m == kw@.len(),
            forall|j: int| 0 <= j < i ==> char_eq_ci(line@[j], kw@[j]),
        decreases m - i,
    {
        if !exec_char_eq_ci(line.get_char(i), kw.get_char(i)) {
            return false;
        }
        i = i + 1;
    }
    true
}

// ===================== references =====================

/// The end of the run of token characters starting at `j`.
pub open spec fn token_end(s: Seq<char>, j: int) -> int
    decreases s.len() - j when 0 <= j <= s.len()
{
    if j < s.len() && is_token_char(s[j]) {
        token_end(s, j + 1)
    } else {
        j
    }
}

proof fn lemma_token_end_bounds(s: Seq<char>, j: int)
    requires
        0 <= j <= s.len(),
    ensures
        j <= token_end(s, j) <= s.len(),
    decreases s.len() - j,
{
    if j < s.len() && is_token_char(s[j]) {
        lemma_token_end_bounds(s, j + 1);
    }
}

/// The reference written at position `i` of `s`, if the text at `i` has the
/// form `${domain.attribute}`: the position just past the closing brace, the
/// domain token and the attribute token.
pub open spec fn ref_at(s: Seq<char>, i: int) -> Option<(int, Seq<char>, Seq<char>)> {
    if 0 <= i && i + 2 <= s.len() && s[i] == '$' && s[i + 1] == '{' {
        let de = token_end(s, i + 2);
        if de > i + 2 && de < s.len() && s[de] == '.' {
            let ae = token_end(s, de + 1);
            if ae > de + 1 && ae < s.len() && s[ae] == '}' {
                Some((ae + 1, s.subrange(i + 2, de), s.subrange(de + 1, ae)))
            } else {
                None
            }
        } else {
            None
        }
    } else {
        None
    }
}

proof fn lemma_ref_at_bounds(s: Seq<char>, i: int)
    requires
        0 <= i,
        ref_at(s, i) is Some,
    ensures
        i < ref_at(s, i).unwrap().0 <= s.len(),
{
    lemma_token_end_bounds(s, i + 2);
    let de = token_end(s, i + 2);
    lemma_token_end_bounds(s, de + 1);
}

/// All references of `s` from position `i` on, leftmost first, scanning past
/// each match and otherwise one character at a time.
pub open spec fn refs_from(s: Seq<char>, i: int) -> Seq<(Seq<char>, Seq<char>)>
    decreases s.len() - i when 0 <= i via refs_from_decreases
{
    if i >= s.len() {
        Seq::empty()
    } else {
        match ref_at(s, i) {
            Some(r) => seq![(r.1, r.2)] + refs_from(s, r.0),
            None => refs_from(s, i + 1),
        }
    }
}

#[via_fn]
proof fn refs_from_decreases(s: Seq<char>, i: int) {
    if i < s.len() && ref_at(s, i) is Some {
        lemma_ref_at_bounds(s, i);
    }
}

/// All references embedded in `s`, as `(domain, attribute)` token pairs.
pub open spec fn refs_of(s: Seq<char>) -> Seq<(Seq<char>, Seq<char>)> {
    refs_from(s, 0)
}

/// A reference joined back to its `domain.attribute` notation.
pub open spec fn ref_string(r: (Seq<char>, Seq<char>)) -> Seq<char> {
    r.0 + "."@ + r.1
}

/// All references embedded in `s`, in `domain.attribute` notation.
pub open spec fn ref_strings_of(s: Seq<char>) -> Seq<Seq<char>> {
    refs_of(s).map_values(|r: (Seq<char>, Seq<char>)| ref_string(r))
}

/// A structured citation embedded in step text: `${domain.attribute}`.
pub struct DomainReference {
    /// The token before the dot; non-empty, alphanumeric or underscore.
    pub domain_name: String,
    /// The token after the dot; non-empty, alphanumeric or underscore.
    pub attribute_name: String,
}

impl View for DomainReference {
    type V = (Seq<char>, Seq<char>);

    open spec fn view(&self) -> (Seq<char>, Seq<char>) {
        (self.domain_name@, self.attribute_name@)
    }
}

fn exec_token_end(s: &str, j: usize, n: usize) -> (e: usize)
    requires
        j <= n,
        n == s@.len(),
    ensures
        e == token_end(s@, j as int),
        j <= e <= n,
{
    let mut e = j;
    while e < n && exec_is_token(s.get_char(e))
        invariant
            j <= e <= n,
            n == s@.len(),
            token_end(s@, j as int) == token_end(s@, e as int),
        decreases n - e,
    {
        e = e + 1;
    }
    e
}

fn exec_ref_at(s: &str, i: usize, n: usize) -> (r: Option<(usize, String, String)>)
    requires
        i < n,
        n == s@.len(),
    ensures
        match r {
            Some(t) => {
                &&& ref_at(s@, i as int) matches Some(m)
                &&& m.0 == t.0 as int
                &&& m.1 == t.1@
                &&& m.2 == t.2@
                &&& i < t.0 <= n
            },
            None => ref_at(s@, i as int) is None,
        },
{
    if n - i < 2 {
        return None;
    }
    if s.get_char(i) != '$' || s.get_char(i + 1) != '{' {
        return None;
    }
    let de = exec_token_end(s, i + 2, n);
    if !(de > i + 2 && de < n) {
        return None;
    }
    if s.get_char(de) != '.' {
        return None;
    }
    let ae = exec_token_end(s, de + 1, n);
    if !(ae > de + 1 && ae < n) {
        return None;
    }
    if s.get_char(ae) != '}' {
        return None;
    }
    let dom = s.substring_char(i + 2, de).to_owned();
    let attr = s.substring_char(de + 1, ae).to_owned();
    Some((ae + 1, dom, attr))
}

/// Extracts every `${Domain.attribute}` reference of `text`, left to right,
/// duplicates kept.
pub fn extract_references(text: &str) -> (r: Vec<DomainReference>)
    ensures
        r@.map_values(|d: DomainReference| d@) == refs_of(text@),
{
    let n = text.unicode_len();
    let mut out: Vec<DomainReference> = Vec::new();
    let mut i: usize = 0;
    while i < n
        invariant
            0 <= i <= n,
            n == text@.len(),
            refs_of(text@) == out@.map_values(|d: DomainReference| d@) + refs_from(
                text@,
                i as int,
            ),
        decreases n - i,
    {
        let ghost prev = out@.map_values(|d: DomainReference| d@);
        match exec_ref_at(text, i, n) {
            Some((end, dom, attr)) => {
                out.push(DomainReference { domain_name: dom, attribute_name: attr });
                proof {
                    assert(out@.map_values(|d: DomainReference| d@) =~= prev.push(
                        (dom@, attr@),
                    ));
                    assert(prev + (seq![(dom@, attr@)] + refs_from(text@, end as int)) =~= prev.push(
                        (dom@, attr@),
                    ) + refs_from(text@, end as int));
                }
                i = end;
            },
            None => {
                i = i + 1;
            },
        }
    }
    out
}

// ===================== lines =====================

/// Position of the first newline of `s`, or `-1` if there is none.
pub open spec fn first_nl(s: Seq<char>) -> int
    decreases s.len(),
{
    if s.len() == 0 {
        -1
    } else if s[0] == '\n' {
        0
    } else {
        let r = first_nl(s.skip(1));
        if r < 0 {
            -1
        } else {
            r + 1
        }
    }
}

/// `s` split at every newline. Splitting keeps empty pieces, so the result
/// always has one piece more than `s` has newlines.
pub open spec fn split_lines(s: Seq<char>) -> Seq<Seq<char>>
    decreases s.len() via split_lines_decreases
{
    let j = first_nl(s);
    if j < 0 {
        seq![s]
    } else {
        seq![s.take(j)] + split_lines(s.skip(j + 1))
    }
}

proof fn lemma_first_nl_found(s: Seq<char>, k: int)
    requires
        0 <= k < s.len(),
        s[k] == '\n',
        forall|j: int| 0 <= j < k ==> s[j] != '\n',
    ensures
        first_nl(s) == k,
    decreases k,
{
    if k > 0 {
        lemma_first_nl_found(s.skip(1), k - 1);
    }
}

proof fn lemma_first_nl_none(s: Seq<char>)
    requires
        forall|j: int| 0 <= j < s.len() ==> s[j] != '\n',
    ensures
        first_nl(s) == -1,
    decreases s.len(),
{
    if s.len() > 0 {
        lemma_first_nl_none(s.skip(1));
    }
}

proof fn lemma_first_nl_bounds(s: Seq<char>)
    ensures
        -1 <= first_nl(s) < s.len(),
        first_nl(s) >= 0 ==> s[first_nl(s)] == '\n',
    decreases s.len(),
{
    if s.len() > 0 && s[0] != '\n' {
        lemma_first_nl_bounds(s.skip(1));
    }
}

#[via_fn]
proof fn split_lines_decreases(s: Seq<char>) {
    lemma_first_nl_bounds(s);
}

/// Splits `s` into its lines.
fn split_lines_exec(s: &str) -> (r: Vec<String>)
    ensures
        r.deep_view() == split_lines(s@),
{
    let n = s.unicode_len();
    let mut out: Vec<String> = Vec::new();
    let mut start: usize = 0;
    let mut i: usize = 0;
    proof {
        assert(out.deep_view() =~= Seq::<Seq<char>>::empty());
        assert(s@.skip(0) =~= s@);
        assert(Seq::<Seq<char>>::empty() + split_lines(s@) =~= split_lines(s@));
    }
    while i < n
        invariant
            0 <= start <= i <= n,
            n == s@.len(),
            forall|j: int| start <= j < i ==> s@[j] != '\n',
            split_lines(s@) == out.deep_view() + split_lines(s@.skip(start as int)),
        decreases n - i,
    {
        if s.get_char(i) == '\n' {
            let ghost prev = out.deep_view();
            let ghost tail = s@.skip(start as int);
            let piece = s.substring_char(start, i).to_owned();
            out.push(piece);
            proof {
                assert forall|j: int| 0 <= j < i - start implies tail[j] != '\n' by {
                    assert(tail[j] == s@[start + j]);
                }
                lemma_first_nl_found(tail, i - start);
                assert(tail.take(i - start) =~= s@.subrange(start as int, i as int));
                assert(tail.skip(i - start + 1) =~= s@.skip(i as int + 1));
                assert(out.deep_view() =~= prev.push(piece@));
                assert(prev + (seq![piece@] + split_lines(s@.skip(i as int + 1))) =~= prev.push(
                    piece@,
                ) + split_lines(s@.skip(i as int + 1)));
            }
            start = i + 1;
        }
        i = i + 1;
    }
    let ghost prev = out.deep_view();
    let last = s.substring_char(start, n).to_owned();
    out.push(last);
    proof {
        let tail = s@.skip(start as int);
        assert forall|j: int| 0 <= j < tail.len() implies tail[j] != '\n' by {
            assert(tail[j] == s@[start + j]);
        }
        lemma_first_nl_none(tail);
        assert(tail =~= s@.subrange(start as int, n as int));
        assert(out.deep_view() =~= prev.push(last@));
        assert(prev + seq![last@] =~= prev.push(last@));
    }
    out
}

// ===================== the step model =====================

/// One recognized scenario line.
pub struct ParsedStep {
    /// Lower-case keyword that opened the line: one of `"given"`, `"when"`,
    /// `"then"`, `"and"`, `"but"`.
    pub step_type: String,
    /// Position of this step among the recognized lines, starting at 0.
    pub step_order: usize,
    /// The line's content after the keyword, trimmed, original casing kept.
    pub step_text: String,
    /// Every `${Domain.attribute}` reference of `step_text`, rendered as
    /// `"Domain.attribute"`, in order of appearance, duplicates kept.
    pub domain_references: Vec<String>,
}

/// Mathematical model of a `ParsedStep`.
#[verifier::ext_equal]
pub ghost struct StepView {
    pub step_type: Seq<char>,
    pub step_order: int,
    pub step_text: Seq<char>,
    pub domain_references: Seq<Seq<char>>,
}

impl View for ParsedStep {
    type V = StepView;

    open spec fn view(&self) -> StepView {
        StepView {
            step_type: self.step_type@,
            step_order: self.step_order as int,
            step_text: self.step_text@,
            domain_references: self.domain_references.deep_view(),
        }
    }
}

/// The step produced for one raw line at a given order, if the line is
/// recognized.
pub open spec fn line_step_view(raw: Seq<char>, order: int) -> Option<StepView> {
    match line_step(raw) {
        Some(st) => Some(
            StepView {
                step_type: st.0,
                step_order: order,
                step_text: st.1,
                domain_references: ref_strings_of(st.1),
            },
        ),
        None => None,
    }
}

/// The steps recognized on `lines`, numbered from `start_order` on.
pub open spec fn parse_lines(lines: Seq<Seq<char>>, start_order: int) -> Seq<StepView>
    decreases lines.len(),
{
    if lines.len() == 0 {
        Seq::empty()
    } else {
        match line_step_view(lines[0], start_order) {
            Some(sv) => seq![sv] + parse_lines(lines.skip(1), start_order + 1),
            None => parse_lines(lines.skip(1), start_order),
        }
    }
}

/// The full parse of a scenario text: its recognized steps in order.
pub open spec fn parse_view(text: Seq<char>) -> Seq<StepView> {
    parse_lines(split_lines(text), 0)
}

proof fn lemma_parse_lines_append(a: Seq<Seq<char>>, b: Seq<Seq<char>>, o: int)
    ensures
        parse_lines(a + b, o) == parse_lines(a, o) + parse_lines(b, o + parse_lines(a, o).len()),
    decreases a.len(),
{
    if a.len() == 0 {
        assert(a + b =~= b);
        assert(parse_lines(a, o) + parse_lines(b, o) =~= parse_lines(b, o));
    } else {
        assert((a + b)[0] == a[0]);
        assert((a + b).skip(1) =~= a.skip(1) + b);
        lemma_parse_lines_append(a.skip(1), b, o + 1);
        lemma_parse_lines_append(a.skip(1), b, o);
        match line_step_view(a[0], o) {
            Some(sv) => {
                assert(parse_lines(a + b, o) == seq![sv] + parse_lines(a.skip(1) + b, o + 1));
                assert(seq![sv] + (parse_lines(a.skip(1), o + 1) + parse_lines(
                    b,
                    o + 1 + parse_lines(a.skip(1), o + 1).len(),
                )) =~= (seq![sv] + parse_lines(a.skip(1), o + 1)) + parse_lines(
                    b,
                    o + 1 + parse_lines(a.skip(1), o + 1).len(),
                ));
            },
            None => {},
        }
    }
}

// ===================== formatting =====================

/// The title-case keyword written for a stored lower-case step type;
/// unrecognized step types fall back to `Given`.
pub open spec fn title_of(st: Seq<char>) -> Seq<char> {
    if st == "given"@ {
        "Given"@
    } else if st == "when"@ {
        "When"@
    } else if st == "then"@ {
        "Then"@
    } else if st == "and"@ {
        "And"@
    } else if st == "but"@ {
        "But"@
    } else {
        "Given"@
    }
}

/// One step rendered back to a scenario line.
pub open spec fn format_line(sv: StepView) -> Seq<char> {
    title_of(sv.step_type) + " "@ + sv.step_text
}

/// Steps rendered back to scenario text, one line per step, joined with
/// newlines.
pub open spec fn format_view(svs: Seq<StepView>) -> Seq<char>
    decreases svs.len(),
{
    if svs.len() == 0 {
        Seq::empty()
    } else if svs.len() == 1 {
        format_line(svs[0])
    } else {
        format_line(svs[0]) + "\n"@ + format_view(svs.skip(1))
    }
}

proof fn lemma_format_snoc(svs: Seq<StepView>)
    requires
        svs.len() >= 2,
    ensures
        format_view(svs) == format_view(svs.drop_last()) + "\n"@ + format_line(svs.last()),
    decreases svs.len(),
{
    if svs.len() == 2 {
        assert(svs.skip(1) =~= seq![svs[1]]);
        assert(svs.drop_last() =~= seq![svs[0]]);
        assert(format_view(seq![svs[1]]) == format_line(svs[1]));
        assert(format_view(seq![svs[0]]) == format_line(svs[0]));
    } else {
        lemma_format_snoc(svs.skip(1));
        assert(svs.skip(1).drop_last() =~= svs.drop_last().skip(1));
        assert(svs.skip(1).last() == svs.last());
        assert(format_line(svs[0]) + "\n"@ + (format_view(svs.drop_last().skip(1)) + "\n"@
            + format_line(svs.last())) =~= (format_line(svs.drop_last()[0]) + "\n"@ + format_view(
            svs.drop_last().skip(1),
        )) + "\n"@ + format_line(svs.last()));
    }
}

fn title_str(st: &String) -> (r: &'static str)
    ensures
        r@ == title_of(st@),
{
    if *st == "given".to_owned() {
        "Given"
    } else if *st == "when".to_owned() {
        "When"
    } else if *st == "then".to_owned() {
        "Then"
    } else if *st == "and".to_owned() {
        "And"
    } else if *st == "but".to_owned() {
        "But"
    } else {
        "Given"
    }
}

// ===================== the parser =====================

/// Parses, renders and checks Gherkin-style scenario text.
pub struct GherkinParser;

fn match_keyword(t: &str, kw: &str) -> (r: Option<String>)
    ensures
        match r {
            Some(text) => starts_with_ci(t@, kw@) && text@ == trim_chars(
                t@.skip(kw@.len() as int),
            ),
            None => !starts_with_ci(t@, kw@),
        },
{
    if exec_starts_with_ci(t, kw) {
        let tl = t.unicode_len();
        let kl = kw.unicode_len();
        let rest = t.substring_char(kl, tl);
        proof {
            assert(rest@ =~= t@.skip(kw@.len() as int));
        }
        Some(trim_str(rest))
    } else {
        None
    }
}

fn build_step(kw: &'static str, order: usize, text: String) -> (p: ParsedStep)
    ensures
        p@.step_type == kw@,
        p@.step_order == order as int,
        p@.step_text == text@,
        p@.domain_references == ref_strings_of(text@),
{
    let refs = GherkinParser::extract_domain_references(text.as_str());
    ParsedStep { step_type: kw.to_owned(), step_order: order, step_text: text, domain_references: refs }
}

impl GherkinParser {
    /// Parses Gherkin text into structured steps: one step per recognized
    /// line, orders contiguous from zero, unrecognized lines dropped.
    pub fn parse(gherkin_text: &str) -> (steps: Vec<ParsedStep>)
        ensures
            steps@.map_values(|p: ParsedStep| p@) == parse_view(gherkin_text@),
    {
        let lines = split_lines_exec(gherkin_text);
        let ghost lsv = split_lines(gherkin_text@);
        let mut steps: Vec<ParsedStep> = Vec::new();
        let mut order: usize = 0;
        let mut i: usize = 0;
        proof {
            assert(steps@.map_values(|p: ParsedStep| p@) =~= parse_lines(lsv.take(0), 0));
        }
        while i < lines.len()
            invariant
                0 <= i <= lines.len(),
                lines.deep_view() == lsv,
                lsv.len() == lines.len(),
                steps@.map_values(|p: ParsedStep| p@) == parse_lines(lsv.take(i as int), 0),
                order as int == parse_lines(lsv.take(i as int), 0).len(),
                order as int <= i,
            decreases lines.len() - i,
        {
            let ghost taken = parse_lines(lsv.take(i as int), 0);
            proof {
                assert(lsv.take(i as int + 1) =~= lsv.take(i as int) + seq![lsv[i as int]]);
                lemma_parse_lines_append(lsv.take(i as int), seq![lsv[i as int]], 0);
                assert(seq![lsv[i as int]].skip(1) =~= Seq::<Seq<char>>::empty());
                assert(lines@[i as int]@ == lsv[i as int]);
                assert(parse_lines(Seq::<Seq<char>>::empty(), taken.len() as int) =~= Seq::<
                    StepView,
                >::empty());
                assert(parse_lines(Seq::<Seq<char>>::empty(), taken.len() as int + 1) =~= Seq::<
                    StepView,
                >::empty());
            }
            let line = &lines[i];
            match Self::parse_line(line.as_str(), order) {
                Some(step) => {
                    let ghost prev = steps@.map_values(|p: ParsedStep| p@);
                    let ghost sv = line_step_view(lsv[i as int], order as int).unwrap();
                    steps.push(step);
                    order = order + 1;
                    proof {
                        assert(parse_lines(seq![lsv[i as int]], taken.len() as int) =~= seq![sv]);
                        assert(steps@.map_values(|p: ParsedStep| p@) =~= prev.push(sv));
                        assert(prev + seq![sv] =~= prev.push(sv));
                    }
                },
                None => {
                    proof {
                        assert(parse_lines(seq![lsv[i as int]], taken.len() as int) =~= Seq::<
                            StepView,
                        >::empty());
                        assert(taken + Seq::<StepView>::empty() =~= taken);
                    }
                },
            }
            i = i + 1;
        }
        proof {
            assert(lsv.take(lsv.len() as int) =~= lsv);
        }
        steps
    }

    /// Recognizes a single line as a step with the given order, or returns
    /// `None` when no keyword opens the (trimmed) line.
    pub fn parse_line(line: &str, order: usize) -> (r: Option<ParsedStep>)
        ensures
            match r {
                Some(p) => line_step_view(line@, order as int) matches Some(sv) && p@ == sv,
                None => line_step_view(line@, order as int) is None,
            },
    {
        let t = trim_str(line);
        if let Some(text) = match_keyword(t.as_str(), "given") {
            let p = build_step("given", order, text);
            proof {
                assert(p@ =~= line_step_view(line@, order as int).unwrap());
            }
            Some(p)
        } else if let Some(text) = match_keyword(t.as_str(), "when") {
            let p = build_step("when", order, text);
            proof {
                assert(p@ =~= line_step_view(line@, order as int).unwrap());
            }
            Some(p)
        } else if let Some(text) = match_keyword(t.as_str(), "then") {
            let p = build_step("then", order, text);
            proof {
                assert(p@ =~= line_step_view(line@, order as int).unwrap());
            }
            Some(p)
        } else if let Some(text) = match_keyword(t.as_str(), "and") {
            let p = build_step("and", order, text);
            proof {
                assert(p@ =~= line_step_view(line@, order as int).unwrap());
            }
            Some(p)
        } else if let Some(text) = match_keyword(t.as_str(), "but") {
            let p = build_step("but", order, text);
            proof {
                assert(p@ =~= line_step_view(line@, order as int).unwrap());
            }
            Some(p)
        } else {
            None
        }
    }

    /// Extracts every `${Domain.attribute}` reference of `text` in
    /// `Domain.attribute` notation, left to right, duplicates kept.
    pub fn extract_domain_references(text: &str) -> (r: Vec<String>)
        ensures
            r.deep_view() == ref_strings_of(text@),
    {
        let refs = extract_references(text);
        let ghost rv = refs@.map_values(|d: DomainReference| d@);
        let ghost joiner = |p: (Seq<char>, Seq<char>)| ref_string(p);
        let mut out: Vec<String> = Vec::new();
        let mut k: usize = 0;
        proof {
            assert(out.deep_view() =~= rv.take(0).map_values(joiner));
        }
        while k < refs.len()
            invariant
                0 <= k <= refs.len(),
                rv == refs@.map_values(|d: DomainReference| d@),
                rv == refs_of(text@),
                joiner == (|p: (Seq<char>, Seq<char>)| ref_string(p)),
                out.deep_view() == rv.take(k as int).map_values(joiner),
            decreases refs.len() - k,
        {
            let ghost prev = out.deep_view();
            let d = &refs[k];
            let mut j = d.domain_name.clone();
            j.append(".");
            j.append(d.attribute_name.as_str());
            out.push(j);
            proof {
                assert(rv[k as int] == refs@[k as int]@);
                assert(out.deep_view() =~= prev.push(j@));
                assert(j@ == joiner(rv[k as int]));
                assert(rv.take(k as int + 1).map_values(joiner) =~= rv.take(k as int).map_values(
                    joiner,
                ).push(joiner(rv[k as int])));
            }
            k = k + 1;
        }
        proof {
            assert(rv.take(rv.len() as int) =~= rv);
            assert(rv.map_values(joiner) =~= ref_strings_of(text@));
        }
        out
    }

    /// Renders steps back to Gherkin text, one `Keyword text` line per step.
    pub fn format(steps: &Vec<ParsedStep>) -> (r: String)
        ensures
            r@ == format_view(steps@.map_values(|p: ParsedStep| p@)),
    {
        let ghost svs = steps@.map_values(|p: ParsedStep| p@);
        let mut r = String::new();
        let mut i: usize = 0;
        proof {
            assert(r@ =~= format_view(svs.take(0)));
        }
        while i < steps.len()
            invariant
                0 <= i <= steps.len(),
                svs == steps@.map_values(|p: ParsedStep| p@),
                svs.len() == steps.len(),
                r@ == format_view(svs.take(i as int)),
            decreases steps.len() - i,
        {
            let ghost prev = r@;
            let step = &steps[i];
            if i > 0 {
                r.append("\n");
            }
            r.append(title_str(&step.step_type));
            r.append(" ");
            r.append(step.step_text.as_str());
            proof {
                let cur = svs.take(i as int + 1);
                assert(cur.drop_last() =~= svs.take(i as int));
                assert(cur.last() == svs[i as int]);
                assert(svs[i as int] == steps@[i as int]@);
                if i == 0 {
                    assert(cur.len() == 1);
                    assert(format_view(cur) == format_line(cur[0]));
                    assert(r@ =~= format_line(svs[0]));
                } else {
                    lemma_format_snoc(cur);
                    assert(r@ =~= format_view(svs.take(i as int)) + "\n"@ + format_line(
                        svs[i as int],
                    ));
                }
            }
            i = i + 1;
        }
        proof {
            assert(svs.take(svs.len() as int) =~= svs);
        }
        r
    }

    /// Checks that the text holds at least one recognizable step; otherwise
    /// reports a human-readable parse error.
    pub fn validate(gherkin_text: &str) -> (r: Result<(), String>)
        ensures
            r is Ok <==> parse_view(gherkin_text@).len() > 0,
            r matches Err(m) ==> m@
                == "No valid Gherkin steps found. Please use Given/When/Then/And/But keywords."@,
    {
        let steps = Self::parse(gherkin_text);
        if steps.len() == 0 {
            Err("No valid Gherkin steps found. Please use Given/When/Then/And/But keywords.".to_owned())
        } else {
            Ok(())
        }
    }
}

// ===================== laws =====================

proof fn lemma_parse_lines_orders(ls: Seq<Seq<char>>, o: int)
    ensures
        forall|i: int|
            0 <= i < parse_lines(ls, o).len() ==> (#[trigger] parse_lines(ls, o)[i]).step_order == o
                + i,
    decreases ls.len(),
{
    if ls.len() > 0 {
        match line_step_view(ls[0], o) {
            Some(sv) => {
                lemma_parse_lines_orders(ls.skip(1), o + 1);
                let all = parse_lines(ls, o);
                let rest = parse_lines(ls.skip(1), o + 1);
                assert(all == seq![sv] + rest);
                assert forall|i: int| 0 <= i < all.len() implies (#[trigger] all[i]).step_order == o
                    + i by {
                    if i == 0 {
                        assert(all[0] == sv);
                    } else {
                        assert(all[i] == rest[i - 1]);
                    }
                }
            },
            None => {
                lemma_parse_lines_orders(ls.skip(1), o);
                assert(parse_lines(ls, o) == parse_lines(ls.skip(1), o));
            },
        }
    }
}

proof fn lemma_parse_lines_none(ls: Seq<Seq<char>>, o: int)
    requires
        forall|k: int| 0 <= k < ls.len() ==> line_step(#[trigger] ls[k]) is None,
    ensures
        parse_lines(ls, o).len() == 0,
    decreases ls.len(),
{
    if ls.len() > 0 {
        assert(line_step(ls[0]) is None);
        assert forall|k: int| 0 <= k < ls.skip(1).len() implies line_step(
            #[trigger] ls.skip(1)[k],
        ) is None by {
            assert(ls.skip(1)[k] == ls[k + 1]);
        }
        lemma_parse_lines_none(ls.skip(1), o);
    }
}

/// Law: text none of whose lines opens with a keyword parses to no steps at
/// all (and `validate` therefore rejects it).
pub proof fn lemma_parse_unrecognized_only(text: Seq<char>)
    requires
        forall|k: int|
            0 <= k < split_lines(text).len() ==> line_step(#[trigger] split_lines(text)[k]) is None,
    ensures
        parse_view(text).len() == 0,
{
    lemma_parse_lines_none(split_lines(text), 0);
}

/// Law: `parse` numbers its steps contiguously from zero — the `i`-th
/// recognized step carries order `i`.
pub proof fn lemma_parse_orders(text: Seq<char>)
    ensures
        forall|i: int|
            0 <= i < parse_view(text).len() ==> (#[trigger] parse_view(text)[i]).step_order == i,
{
    lemma_parse_lines_orders(split_lines(text), 0);
}

proof fn lemma_trim_front_len(s: Seq<char>)
    ensures
        trim_front_chars(s).len() <= s.len(),
    decreases s.len(),
{
    if s.len() > 0 && is_space_char(s[0]) {
        lemma_trim_front_len(s.skip(1));
    }
}

proof fn lemma_trim_back_len(s: Seq<char>)
    ensures
        trim_back_chars(s).len() <= s.len(),
    decreases s.len(),
{
    if s.len() > 0 && is_space_char(s[s.len() - 1]) {
        lemma_trim_back_len(s.drop_last());
    }
}

proof fn lemma_trim_id_ends(s: Seq<char>)
    requires
        trim_chars(s) == s,
        s.len() > 0,
    ensures
        !is_space_char(s[0]),
        !is_space_char(s[s.len() - 1]),
        trim_front_chars(s) == s,
        trim_back_chars(s) == s,
{
    if is_space_char(s[0]) {
        lemma_trim_front_len(s.skip(1));
        lemma_trim_back_len(trim_front_chars(s));
        assert(false);
    }
    assert(trim_front_chars(s) == s);
    if is_space_char(s[s.len() - 1]) {
        lemma_trim_back_len(s.drop_last());
        assert(false);
    }
}

proof fn lemma_trim_format_line(kw: Seq<char>, text: Seq<char>)
    requires
        kw.len() > 0,
        !is_space_char(kw[0]),
        !is_space_char(kw[kw.len() - 1]),
        trim_chars(text) == text,
        " "@ == seq![' '],
    ensures
        trim_chars(kw + " "@ + text) == if text.len() == 0 {
            kw
        } else {
            kw + " "@ + text
        },
        trim_chars(trim_chars(kw + " "@ + text).skip(kw.len() as int)) == text,
{
    let line = kw + " "@ + text;
    assert(line[0] == kw[0]);
    assert(trim_front_chars(line) == line);
    if text.len() == 0 {
        assert(line.len() == kw.len() + 1);
        assert(is_space_char(line[line.len() - 1]));
        assert(line.drop_last() =~= kw);
        assert(trim_back_chars(kw) == kw);
        assert(trim_chars(line) == kw);
        assert(kw.skip(kw.len() as int) =~= Seq::<char>::empty());
        assert(trim_chars(Seq::<char>::empty()) =~= Seq::<char>::empty());
    } else {
        lemma_trim_id_ends(text);
        assert(line[line.len() - 1] == text[text.len() - 1]);
        assert(trim_back_chars(line) == line);
        assert(trim_chars(line) == line);
        let after = line.skip(kw.len() as int);
        assert(after =~= " "@ + text);
        assert(is_space_char(after[0]));
        assert(after.skip(1) =~= text);
        assert(trim_front_chars(after) == trim_front_chars(text));
        assert(trim_chars(after) == text);
    }
}

/// A step that `format` renders to a clean scenario line: a known keyword,
/// and step text that is already trimmed and holds no newline.
pub open spec fn wellformed_step(sv: StepView) -> bool {
    &&& (sv.step_type == "given"@ || sv.step_type == "when"@ || sv.step_type == "then"@
        || sv.step_type == "and"@ || sv.step_type == "but"@)
    &&& trim_chars(sv.step_text) == sv.step_text
    &&& forall|i: int| 0 <= i < sv.step_text.len() ==> sv.step_text[i] != '\n'
}

proof fn lemma_line_step_format(sv: StepView)
    requires
        wellformed_step(sv),
    ensures
        line_step(format_line(sv)) == Some((sv.step_type, sv.step_text)),
        forall|i: int| 0 <= i < format_line(sv).len() ==> format_line(sv)[i] != '\n',
{
    reveal_strlit("given");
    reveal_strlit("when");
    reveal_strlit("then");
    reveal_strlit("and");
    reveal_strlit("but");
    reveal_strlit("Given");
    reveal_strlit("When");
    reveal_strlit("Then");
    reveal_strlit("And");
    reveal_strlit("But");
    reveal_strlit(" ");
    assert(" "@ =~= seq![' ']);
    let text = sv.step_text;
    let title = title_of(sv.step_type);
    let line = format_line(sv);
    lemma_trim_format_line(title, text);
    let t = trim_chars(line);
    assert forall|i: int| 0 <= i < line.len() implies line[i] != '\n' by {
        if i < title.len() {
            assert(line[i] == title[i]);
        } else if i == title.len() {
            assert(line[i] == ' ');
        } else {
            assert(line[i] == text[i - title.len() - 1]);
        }
    }
    // In both the empty- and non-empty-text cases, the trimmed line starts
    // with the title keyword.
    assert(t.len() >= title.len());
    assert(forall|i: int| 0 <= i < title.len() ==> t[i] == title[i]);
    if sv.step_type == "given"@ {
        assert(starts_with_ci(t, "given"@));
        assert(matched_keyword(t) == Some(0int));
    } else if sv.step_type == "when"@ {
        assert(!char_eq_ci(t[0], 'g'));
        assert(!starts_with_ci(t, "given"@));
        assert(starts_with_ci(t, "when"@));
        assert(matched_keyword(t) == Some(1int));
    } else if sv.step_type == "then"@ {
        assert(!char_eq_ci(t[0], 'g'));
        assert(!char_eq_ci(t[0], 'w'));
        assert(!starts_with_ci(t, "given"@));
        assert(!starts_with_ci(t, "when"@));
        assert(starts_with_ci(t, "then"@));
        assert(matched_keyword(t) == Some(2int));
    } else if sv.step_type == "and"@ {
        assert(!char_eq_ci(t[0], 'g'));
        assert(!char_eq_ci(t[0], 'w'));
        assert(!char_eq_ci(t[0], 't'));
        assert(!starts_with_ci(t, "given"@));
        assert(!starts_with_ci(t, "when"@));
        assert(!starts_with_ci(t, "then"@));
        assert(starts_with_ci(t, "and"@));
        assert(matched_keyword(t) == Some(3int));
    } else {
        assert(!char_eq_ci(t[0], 'g'));
        assert(!char_eq_ci(t[0], 'w'));
        assert(!char_eq_ci(t[0], 't'));
        assert(!char_eq_ci(t[0], 'a'));
        assert(!starts_with_ci(t, "given"@));
        assert(!starts_with_ci(t, "when"@));
        assert(!starts_with_ci(t, "then"@));
        assert(!starts_with_ci(t, "and"@));
        assert(starts_with_ci(t, "but"@));
        assert(matched_keyword(t) == Some(4int));
    }
}

proof fn lemma_round_trip_rec(svs: Seq<StepView>, o: int)
    requires
        forall|i: int| 0 <= i < svs.len() ==> wellformed_step(#[trigger] svs[i]),
    ensures
        parse_lines(split_lines(format_view(svs)), o).len() == svs.len(),
        forall|i: int|
            0 <= i < svs.len() ==> (#[trigger] parse_lines(split_lines(format_view(svs)), o)[i]).step_type
                == svs[i].step_type && parse_lines(split_lines(format_view(svs)), o)[i].step_text
                == svs[i].step_text,
    decreases svs.len(),
{
    reveal_strlit("given");
    reveal_strlit("when");
    reveal_strlit("then");
    reveal_strlit("and");
    reveal_strlit("but");
    if svs.len() == 0 {
        let e = Seq::<char>::empty();
        assert(format_view(svs) == e);
        assert(first_nl(e) == -1);
        assert(split_lines(e) =~= seq![e]);
        assert(trim_chars(e) =~= e);
        assert(!starts_with_ci(e, "given"@));
        assert(!starts_with_ci(e, "when"@));
        assert(!starts_with_ci(e, "then"@));
        assert(!starts_with_ci(e, "and"@));
        assert(!starts_with_ci(e, "but"@));
        assert(line_step_view(e, o) is None);
        assert(seq![e][0] == e);
        assert(seq![e].skip(1) =~= Seq::<Seq<char>>::empty());
        assert(parse_lines(Seq::<Seq<char>>::empty(), o) =~= Seq::<StepView>::empty());
        assert(parse_lines(seq![e], o) =~= Seq::<StepView>::empty());
    } else if svs.len() == 1 {
        lemma_line_step_format(svs[0]);
        let line = format_line(svs[0]);
        assert(format_view(svs) == line);
        lemma_first_nl_none(line);
        assert(split_lines(line) == seq![line]);
        assert(seq![line].skip(1) =~= Seq::<Seq<char>>::empty());
        assert(parse_lines(Seq::<Seq<char>>::empty(), o + 1) =~= Seq::<StepView>::empty());
        let sv0 = line_step_view(line, o).unwrap();
        assert(parse_lines(seq![line], o) =~= seq![sv0]);
    } else {
        reveal_strlit("\n");
        assert("\n"@ =~= seq!['\n']);
        lemma_line_step_format(svs[0]);
        let line = format_line(svs[0]);
        let rest = format_view(svs.skip(1));
        let whole = line + "\n"@ + rest;
        assert(format_view(svs) == whole);
        assert(whole[line.len() as int] == '\n');
        assert forall|j: int| 0 <= j < line.len() implies whole[j] != '\n' by {
            assert(whole[j] == line[j]);
        }
        lemma_first_nl_found(whole, line.len() as int);
        assert(whole.take(line.len() as int) =~= line);
        assert(whole.skip(line.len() as int + 1) =~= rest);
        assert(split_lines(whole) == seq![line] + split_lines(rest));
        assert forall|i: int| 0 <= i < svs.skip(1).len() implies wellformed_step(
            #[trigger] svs.skip(1)[i],
        ) by {
            assert(svs.skip(1)[i] == svs[i + 1]);
        }
        lemma_round_trip_rec(svs.skip(1), o + 1);
        let ls = seq![line] + split_lines(rest);
        assert(ls[0] == line);
        assert(ls.skip(1) =~= split_lines(rest));
        let sv0 = line_step_view(line, o).unwrap();
        let rb = parse_lines(split_lines(rest), o + 1);
        let back = parse_lines(ls, o);
        assert(back == seq![sv0] + rb);
        assert forall|i: int|
            0 <= i < svs.len() implies (#[trigger] back[i]).step_type == svs[i].step_type
            && back[i].step_text == svs[i].step_text by {
            if i == 0 {
                assert(back[0] == sv0);
            } else {
                assert(back[i] == rb[i - 1]);
                assert(svs[i] == svs.skip(1)[i - 1]);
            }
        }
    }
}

/// Law: `format` followed by `parse` restores the same step sequence — for
/// steps with a known keyword and trimmed, newline-free text, parsing the
/// formatted text yields the same `(step_type, step_text)` pairs in the same
/// order.
pub proof fn lemma_format_parse_round_trip(svs: Seq<StepView>)
    requires
        forall|i: int| 0 <= i < svs.len() ==> wellformed_step(#[trigger] svs[i]),
    ensures
        parse_view(format_view(svs)).len() == svs.len(),
        forall|i: int|
            0 <= i < svs.len() ==> (#[trigger] parse_view(format_view(svs))[i]).step_type
                == svs[i].step_type && parse_view(format_view(svs))[i].step_text
                == svs[i].step_text,
{
    lemma_round_trip_rec(svs, 0);
}

/// Two texts equal up to ASCII letter case.
pub open spec fn case_equiv(a: Seq<char>, b: Seq<char>) -> bool {
    a.len() == b.len() && forall|i: int| 0 <= i < a.len() ==> char_eq_ci(a[i], b[i])
}

proof fn lemma_ci_trans(a: char, b: char, c: char)
    requires
        char_eq_ci(a, b),
    ensures
        char_eq_ci(a, c) == char_eq_ci(b, c),
{
}

proof fn lemma_skip_ci(a: Seq<char>, b: Seq<char>, k: int)
    requires
        case_equiv(a, b),
        0 <= k <= a.len(),
    ensures
        case_equiv(a.skip(k), b.skip(k)),
{
    assert forall|i: int| 0 <= i < a.skip(k).len() implies char_eq_ci(
        a.skip(k)[i],
        b.skip(k)[i],
    ) by {
        assert(a.skip(k)[i] == a[k + i]);
        assert(b.skip(k)[i] == b[k + i]);
    }
}

proof fn lemma_first_nl_ci(a: Seq<char>, b: Seq<char>)
    requires
        case_equiv(a, b),
    ensures
        first_nl(a) == first_nl(b),
    decreases a.len(),
{
    if a.len() > 0 {
        assert(char_eq_ci(a[0], b[0]));
        assert((a[0] == '\n') == (b[0] == '\n'));
        if a[0] != '\n' {
            lemma_skip_ci(a, b, 1);
            lemma_first_nl_ci(a.skip(1), b.skip(1));
        }
    }
}

proof fn lemma_split_ci(a: Seq<char>, b: Seq<char>)
    requires
        case_equiv(a, b),
    ensures
        split_lines(a).len() == split_lines(b).len(),
        forall|k: int|
            0 <= k < split_lines(a).len() ==> case_equiv(
                #[trigger] split_lines(a)[k],
                split_lines(b)[k],
            ),
    decreases a.len(),
{
    lemma_first_nl_ci(a, b);
    lemma_first_nl_bounds(a);
    let j = first_nl(a);
    if j < 0 {
        assert(split_lines(a)[0] == a);
        assert(split_lines(b)[0] == b);
    } else {
        assert forall|i: int| 0 <= i < a.take(j).len() implies char_eq_ci(
            a.take(j)[i],
            b.take(j)[i],
        ) by {
            assert(a.take(j)[i] == a[i]);
            assert(b.take(j)[i] == b[i]);
        }
        lemma_skip_ci(a, b, j + 1);
        lemma_split_ci(a.skip(j + 1), b.skip(j + 1));
        let sa = split_lines(a);
        let sb = split_lines(b);
        assert(sa == seq![a.take(j)] + split_lines(a.skip(j + 1)));
        assert(sb == seq![b.take(j)] + split_lines(b.skip(j + 1)));
        assert forall|k: int| 0 <= k < sa.len() implies case_equiv(#[trigger] sa[k], sb[k]) by {
            if k > 0 {
                assert(sa[k] == split_lines(a.skip(j + 1))[k - 1]);
                assert(sb[k] == split_lines(b.skip(j + 1))[k - 1]);
            }
        }
    }
}

proof fn lemma_trim_front_ci(a: Seq<char>, b: Seq<char>)
    requires
        case_equiv(a, b),
    ensures
        case_equiv(trim_front_chars(a), trim_front_chars(b)),
    decreases a.len(),
{
    if a.len() > 0 {
        assert(char_eq_ci(a[0], b[0]));
        assert(is_space_char(a[0]) == is_space_char(b[0]));
        if is_space_char(a[0]) {
            lemma_skip_ci(a, b, 1);
            lemma_trim_front_ci(a.skip(1), b.skip(1));
        }
    }
}

proof fn lemma_trim_back_ci(a: Seq<char>, b: Seq<char>)
    requires
        case_equiv(a, b),
    ensures
        case_equiv(trim_back_chars(a), trim_back_chars(b)),
    decreases a.len(),
{
    if a.len() > 0 {
        assert(char_eq_ci(a[a.len() - 1], b[b.len() - 1]));
        assert(is_space_char(a[a.len() - 1]) == is_space_char(b[b.len() - 1]));
        if is_space_char(a[a.len() - 1]) {
            assert forall|i: int| 0 <= i < a.drop_last().len() implies char_eq_ci(
                a.drop_last()[i],
                b.drop_last()[i],
            ) by {
                assert(a.drop_last()[i] == a[i]);
                assert(b.drop_last()[i] == b[i]);
            }
            lemma_trim_back_ci(a.drop_last(), b.drop_last());
        }
    }
}

proof fn lemma_starts_with_ci_equiv(a: Seq<char>, b: Seq<char>, kw: Seq<char>)
    requires
        case_equiv(a, b),
    ensures
        starts_with_ci(a, kw) == starts_with_ci(b, kw),
{
    if starts_with_ci(a, kw) {
        assert forall|i: int| 0 <= i < kw.len() implies char_eq_ci(b[i], kw[i]) by {
            lemma_ci_trans(a[i], b[i], kw[i]);
        }
    }
    if starts_with_ci(b, kw) {
        assert forall|i: int| 0 <= i < kw.len() implies char_eq_ci(a[i], kw[i]) by {
            lemma_ci_trans(a[i], b[i], kw[i]);
        }
    }
}

proof fn lemma_line_step_ci(a: Seq<char>, b: Seq<char>)
    requires
        case_equiv(a, b),
    ensures
        match (line_step(a), line_step(b)) {
            (Some(x), Some(y)) => x.0 == y.0,
            (None, None) => true,
            _ => false,
        },
{
    lemma_trim_front_ci(a, b);
    lemma_trim_back_ci(trim_front_chars(a), trim_front_chars(b));
    let ta = trim_chars(a);
    let tb = trim_chars(b);
    lemma_starts_with_ci_equiv(ta, tb, keyword_lower(0));
    lemma_starts_with_ci_equiv(ta, tb, keyword_lower(1));
    lemma_starts_with_ci_equiv(ta, tb, keyword_lower(2));
    lemma_starts_with_ci_equiv(ta, tb, keyword_lower(3));
    lemma_starts_with_ci_equiv(ta, tb, keyword_lower(4));
}

proof fn lemma_parse_lines_ci(la: Seq<Seq<char>>, lb: Seq<Seq<char>>, o: int)
    requires
        la.len() == lb.len(),
        forall|k: int| 0 <= k < la.len() ==> case_equiv(#[trigger] la[k], lb[k]),
    ensures
        parse_lines(la, o).len() == parse_lines(lb, o).len(),
        forall|i: int|
            0 <= i < parse_lines(la, o).len() ==> (#[trigger] parse_lines(la, o)[i]).step_type
                == parse_lines(lb, o)[i].step_type && parse_lines(la, o)[i].step_order
                == parse_lines(lb, o)[i].step_order,
    decreases la.len(),
{
    if la.len() > 0 {
        lemma_line_step_ci(la[0], lb[0]);
        assert forall|k: int| 0 <= k < la.skip(1).len() implies case_equiv(
            #[trigger] la.skip(1)[k],
            lb.skip(1)[k],
        ) by {
            assert(la.skip(1)[k] == la[k + 1]);
            assert(lb.skip(1)[k] == lb[k + 1]);
        }
        match line_step_view(la[0], o) {
            Some(sva) => {
                lemma_parse_lines_ci(la.skip(1), lb.skip(1), o + 1);
                let svb = line_step_view(lb[0], o).unwrap();
                let pa = parse_lines(la, o);
                let pb = parse_lines(lb, o);
                let ra = parse_lines(la.skip(1), o + 1);
                let rb = parse_lines(lb.skip(1), o + 1);
                assert(pa == seq![sva] + ra);
                assert(pb == seq![svb] + rb);
                assert forall|i: int|
                    0 <= i < pa.len() implies (#[trigger] pa[i]).step_type == pb[i].step_type
                    && pa[i].step_order == pb[i].step_order by {
                    if i == 0 {
                        assert(pa[0] == sva);
                        assert(pb[0] == svb);
                    } else {
                        assert(pa[i] == ra[i - 1]);
                        assert(pb[i] == rb[i - 1]);
                    }
                }
            },
            None => {
                lemma_parse_lines_ci(la.skip(1), lb.skip(1), o);
                assert(parse_lines(la, o) == parse_lines(la.skip(1), o));
                assert(parse_lines(lb, o) == parse_lines(lb.skip(1), o));
            },
        }
    }
}

/// Law: keyword recognition is case-insensitive — two texts that differ only
/// in ASCII letter case parse to the same number of steps, with the same
/// step types and the same orders.
pub proof fn lemma_parse_case_insensitive(t1: Seq<char>, t2: Seq<char>)
    requires
        case_equiv(t1, t2),
    ensures
        parse_view(t1).len() == parse_view(t2).len(),
        forall|i: int|
            0 <= i < parse_view(t1).len() ==> (#[trigger] parse_view(t1)[i]).step_type == parse_view(
                t2,
            )[i].step_type && parse_view(t1)[i].step_order == parse_view(t2)[i].step_order,
{
    lemma_split_ci(t1, t2);
    lemma_parse_lines_ci(split_lines(t1), split_lines(t2), 0);
}

} // verus!
