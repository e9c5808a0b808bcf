//! The prompt rule engine: rules of four kinds (keyword lists, section
//! checks, duplicate words across sections, regular expressions) applied
//! to a prompt text, giving errors, warnings and a video suggestion.

use vstd::prelude::*;
use crate::text::{
    before_first, chars_of, find_from, contains, find, first_index, has_prefix, has_substring, join, join_strings, decimal, nat_text, byte_len, int_text, parse_int, parse_i64,
    signed_decimal,
    lowercase, owned, alphanumeric, is_alphanumeric, push_char, same_text, str_contains, string_of, take_before, to_lowercase, trim,
    trim_chars,
};

verus! {

// ---------------------------------------------------------------------------
// Rule data
// ---------------------------------------------------------------------------

/// A file of rules, applied in order.
pub struct RulesFile {
    pub rules: Vec<Rule>,
}

/// One rule: what it matches and how a match is reported.
pub struct Rule {
    pub id: String,
    pub description: String,
    /// `error`, `warn` or `info`; anything else reports like `warn`.
    pub severity: String,
    pub match_def: MatchDef,
    pub actions: Vec<Action>,
}

/// What a rule looks for.
pub enum MatchDef {
    /// Any of the keywords in the searched text, unless an exception occurs there.
    List { keywords: Vec<String>, exceptions: Vec<String>, scope: String },
    /// Each section marker present, with content that is long enough.
    SectionCheck { sections: Vec<SectionDef> },
    /// Words that occur in at least `threshold` of the seven sheet sections.
    Duplicate { min_word_length: usize, threshold: usize, ignore: Vec<String> },
    /// Values captured by group 1 of a regular expression.
    Regex {
        pattern: String,
        allowed_values: Vec<String>,
        range: Option<RangeCheck>,
        default: Option<u32>,
        scope: String,
    },
}

/// A section that a sheet must have.
pub struct SectionDef {
    pub marker: String,
    pub min_length: usize,
}

/// An inclusive range of allowed numbers.
#[derive(Clone, Copy)]
pub struct RangeCheck {
    pub min: i64,
    pub max: i64,
}

/// How a rule reacts: `block`, `warn`, `info`, `suggest` or `message`.
pub struct Action {
    pub kind: String,
    pub text: String,
}

/// The scope a rule searches when the rule file names none: the whole text.
pub fn default_scope() -> (r: String)
    ensures
        r@ == "all"@,
{
    owned("all")
}

/// The outcome of checking a prompt against the rules.
pub struct ValidationResult {
    pub errors: Vec<String>,
    pub warnings: Vec<String>,
    pub suggest_video: bool,
}

/// The mathematical content of a [`ValidationResult`].
#[verifier::ext_equal]
pub struct Findings {
    pub errors: Seq<Seq<char>>,
    pub warnings: Seq<Seq<char>>,
    pub suggest_video: bool,
}

impl View for ValidationResult {
    type V = Findings;

    open spec fn view(&self) -> Findings {
        Findings {
            errors: self.errors.deep_view(),
            warnings: self.warnings.deep_view(),
            suggest_video: self.suggest_video,
        }
    }
}

/// Findings with nothing in them.
pub open spec fn no_findings() -> Findings {
    Findings { errors: Seq::empty(), warnings: Seq::empty(), suggest_video: false }
}

impl ValidationResult {
    /// A result with no errors, no warnings and no suggestion.
    pub fn new() -> (r: ValidationResult)
        ensures
            r@ == no_findings(),
    {
        let r = ValidationResult { errors: Vec::new(), warnings: Vec::new(), suggest_video: false };
        assert(r@.errors =~= Seq::<Seq<char>>::empty());
        assert(r@.warnings =~= Seq::<Seq<char>>::empty());
        r
    }
}

// ---------------------------------------------------------------------------
// Sections of a text
// ---------------------------------------------------------------------------

/// The content of the section that starts at the first `marker` in `text`:
/// the text after that marker, up to the next `marker` and then up to the
/// first `## `, without surrounding white space. `None` when `marker` does
/// not occur. (An empty marker splits between characters, so its section is
/// the first character.)
pub open spec fn section_after(text: Seq<char>, marker: Seq<char>) -> Option<Seq<char>> {
    match first_index(text, marker) {
        None => None,
        Some(i) => {
            let piece = if marker.len() == 0 {
                if text.len() > 0 {
                    text.take(1)
                } else {
                    text
                }
            } else {
                before_first(text.skip(i + marker.len()), marker)
            };
            Some(trim(before_first(piece, "## "@)))
        },
    }
}

/// The text a rule with `scope` searches: all of `text`, or with
/// `section:NAME` the section `## NAME`, lowercased.
pub open spec fn search_text(text: Seq<char>, scope: Seq<char>) -> Seq<char> {
    if scope == "all"@ {
        lowercase(text)
    } else if scope.len() >= "section:"@.len() && scope.take("section:"@.len() as int)
        == "section:"@ {
        let marker = "## "@ + scope.skip("section:"@.len() as int);
        match section_after(text, marker) {
            Some(c) => lowercase(c),
            None => lowercase(Seq::empty()),
        }
    } else {
        lowercase(text)
    }
}

/// The content of the section that starts at `marker`, as `extract_section`
/// finds it.
pub fn extract_section(text: &str, marker: &str) -> (r: Option<String>)
    ensures
        r.deep_view() == section_after(text@, marker@),
{
    let t = chars_of(text);
    let m = chars_of(marker);
    match find(&t, &m) {
        None => None,
        Some(i) => {
            proof {
                crate::text::lemma_find_from_bounds(t@, m@, 0);
                assert(find_from(t@, m@, 0) == Some(i as int));
                assert(i + m.len() <= t.len());
            }
            let mut piece: Vec<char> = Vec::new();
            if m.len() == 0 {
                if t.len() > 0 {
                    piece.push(t[0]);
                    assert(piece@ =~= t@.take(1));
                } else {
                    assert(piece@ =~= t@);
                }
            } else {
                let mut after: Vec<char> = Vec::new();
                let mut k = i + m.len();
                while k < t.len()
                    invariant
                        i + m.len() <= k <= t.len(),
                        after@ == t@.subrange(i + m.len(), k as int),
                    decreases t.len() - k,
                {
                    after.push(t[k]);
                    k = k + 1;
                    assert(after@ =~= t@.subrange(i + m.len(), k as int));
                }
                assert(after@ =~= t@.skip(i + m.len()));
                piece = take_before(&after, &m);
            }
            let head_marker = chars_of("## ");
            let head = take_before(&piece, &head_marker);
            let content = trim_chars(&head);
            Some(string_of(&content))
        },
    }
}

/// The lowercased text that a rule with `scope` searches.
pub fn get_search_text(text: &str, scope: &str) -> (r: String)
    ensures
        r@ == search_text(text@, scope@),
{
    if same_text(scope, "all") {
        return to_lowercase(text);
    }
    let s = chars_of(scope);
    let prefix = chars_of("section:");
    if crate::text::starts_with(&s, &prefix) {
        let mut marker = owned("## ");
        let mut k = prefix.len();
        let ghost start = marker@;
        while k < s.len()
            invariant
                prefix.len() <= k <= s.len(),
                marker@ == start + s@.subrange(prefix.len() as int, k as int),
            decreases s.len() - k,
        {
            crate::text::push_char(&mut marker, s[k]);
            k = k + 1;
            assert(marker@ =~= start + s@.subrange(prefix.len() as int, k as int));
        }
        assert(s@.subrange(prefix.len() as int, s.len() as int) =~= s@.skip(
            prefix.len() as int,
        ));
        match extract_section(text, marker.as_str()) {
            Some(c) => to_lowercase(c.as_str()),
            None => {
                let empty = String::new();
                to_lowercase(empty.as_str())
            },
        }
    } else {
        to_lowercase(text)
    }
}

// ---------------------------------------------------------------------------
// Reporting
// ---------------------------------------------------------------------------

/// Whether an action's text is part of a rule's message.
pub open spec fn is_message_action(a: Action) -> bool {
    a.kind@ == "message"@ || a.kind@ == "suggest"@
}

/// The texts of the `message` and `suggest` actions, in order.
pub open spec fn message_texts(actions: Seq<Action>) -> Seq<Seq<char>>
    decreases actions.len(),
{
    if actions.len() == 0 {
        Seq::empty()
    } else {
        let rest = message_texts(actions.drop_last());
        if is_message_action(actions.last()) {
            rest.push(actions.last().text@)
        } else {
            rest
        }
    }
}

/// A rule's message: its message and suggestion texts joined by spaces.
pub open spec fn rule_message(actions: Seq<Action>) -> Seq<char> {
    join(message_texts(actions), " "@)
}

/// One of the actions suggests a video tool (`avp`).
pub open spec fn suggests_video(actions: Seq<Action>) -> bool {
    exists|i: int|
        0 <= i < actions.len() && #[trigger] actions[i].kind@ == "suggest"@ && has_substring(
            actions[i].text@,
            "avp"@,
        )
}

/// `msg` reported with `severity`: errors go to the errors (and a video
/// suggestion is noted), `info` goes to the warnings marked as information,
/// anything else goes to the warnings as it is.
pub open spec fn reported(r: Findings, severity: Seq<char>, msg: Seq<char>, actions: Seq<Action>) -> Findings {
    if severity == "error"@ {
        Findings {
            errors: r.errors.push(msg),
            warnings: r.warnings,
            suggest_video: r.suggest_video || suggests_video(actions),
        }
    } else if severity == "info"@ {
        Findings {
            errors: r.errors,
            warnings: r.warnings.push("ℹ️  "@ + msg),
            suggest_video: r.suggest_video,
        }
    } else {
        Findings { errors: r.errors, warnings: r.warnings.push(msg), suggest_video: r.suggest_video }
    }
}

/// The message of a rule: the texts of its `message` and `suggest` actions
/// joined by spaces.
pub fn collect_messages(actions: &Vec<Action>) -> (r: String)
    ensures
        r@ == rule_message(actions@),
{
    let mut texts: Vec<String> = Vec::new();
    let mut i: usize = 0;
    while i < actions.len()
        invariant
            i <= actions.len(),
            texts.deep_view() == message_texts(actions@.take(i as int)),
        decreases actions.len() - i,
    {
        let a = &actions[i];
        assert(actions@.take(i + 1).drop_last() =~= actions@.take(i as int));
        assert(actions@.take(i + 1).last() == *a);
        if same_text(a.kind.as_str(), "message") || same_text(a.kind.as_str(), "suggest") {
            let ghost before = texts.deep_view();
            texts.push(a.text.clone());
            assert(texts.deep_view() =~= before.push(a.text@));
        }
        i = i + 1;
    }
    assert(actions@.take(actions.len() as int) =~= actions@);
    let r = join_strings(&texts, " ");
    assert(texts@.map_values(|p: String| p@) =~= texts.deep_view());
    r
}

/// Whether some action is a suggestion that names `avp`.
fn has_video_suggestion(actions: &Vec<Action>) -> (r: bool)
    ensures
        r == suggests_video(actions@),
{
    let mut i: usize = 0;
    while i < actions.len()
        invariant
            i <= actions.len(),
            forall|j: int|
                0 <= j < i ==> !(#[trigger] actions@[j].kind@ == "suggest"@ && has_substring(
                    actions@[j].text@,
                    "avp"@,
                )),
        decreases actions.len() - i,
    {
        let a = &actions[i];
        if same_text(a.kind.as_str(), "suggest") && str_contains(a.text.as_str(), "avp") {
            return true;
        }
        i = i + 1;
    }
    false
}

/// Records `msg` in `result` according to `severity`.
pub fn push_by_severity(
    result: &mut ValidationResult,
    severity: &str,
    msg: &str,
    actions: &Vec<Action>,
)
    ensures
        final(result)@ == reported(old(result)@, severity@, msg@, actions@),
{
    let ghost before = result@;
    if same_text(severity, "error") {
        result.errors.push(owned(msg));
        if has_video_suggestion(actions) {
            result.suggest_video = true;
        }
        assert(result@.errors =~= before.errors.push(msg@));
    } else if same_text(severity, "info") {
        let mut m = owned("ℹ️  ");
        m.append(msg);
        result.warnings.push(m);
        assert(result@.warnings =~= before.warnings.push("ℹ️  "@ + msg@));
    } else {
        result.warnings.push(owned(msg));
        assert(result@.warnings =~= before.warnings.push(msg@));
    }
}

/// `[id] body`, the form of every rule report.
pub open spec fn tagged(id: Seq<char>, body: Seq<char>) -> Seq<char> {
    "["@ + id + "] "@ + body
}

/// Builds `[id] ` followed by nothing yet.
fn tag_start(id: &String) -> (r: String)
    ensures
        r@ == "["@ + id@ + "] "@,
{
    let mut m = owned("[");
    m.append(id.as_str());
    m.append("] ");
    m
}

// ---------------------------------------------------------------------------
// Keyword lists
// ---------------------------------------------------------------------------

/// Some word of `words`, lowercased, occurs in `search`.
pub open spec fn any_occurs(search: Seq<char>, words: Seq<String>) -> bool {
    exists|i: int| 0 <= i < words.len() && has_substring(search, lowercase(#[trigger] words[i]@))
}

/// The keywords whose lowercase form occurs in `search`, as written.
pub open spec fn found_keywords(search: Seq<char>, keywords: Seq<String>) -> Seq<Seq<char>>
    decreases keywords.len(),
{
    if keywords.len() == 0 {
        Seq::empty()
    } else {
        let rest = found_keywords(search, keywords.drop_last());
        if has_substring(search, lowercase(keywords.last()@)) {
            rest.push(keywords.last()@)
        } else {
            rest
        }
    }
}

/// A keyword-list rule: the keywords found in the searched text are
/// reported, unless one of the exceptions occurs there.
pub open spec fn list_effect(
    r: Findings,
    id: Seq<char>,
    severity: Seq<char>,
    actions: Seq<Action>,
    keywords: Seq<String>,
    exceptions: Seq<String>,
    scope: Seq<char>,
    text: Seq<char>,
) -> Findings {
    let search = search_text(text, scope);
    let found = if any_occurs(search, exceptions) {
        Seq::empty()
    } else {
        found_keywords(search, keywords)
    };
    if found.len() == 0 {
        r
    } else {
        reported(
            r,
            severity,
            tagged(id, rule_message(actions) + " — 감지: ["@ + join(found, ", "@) + "]"@),
            actions,
        )
    }
}

/// Whether the lowercase form of one of `words` occurs in `search`.
fn any_word_occurs(search: &Vec<char>, words: &Vec<String>) -> (r: bool)
    ensures
        r == any_occurs(search@, words@),
{
    let mut i: usize = 0;
    while i < words.len()
        invariant
            i <= words.len(),
            forall|j: int|
                0 <= j < i ==> !has_substring(search@, lowercase(#[trigger] words@[j]@)),
        decreases words.len() - i,
    {
        let w = to_lowercase(words[i].as_str());
        let wc = chars_of(w.as_str());
        if contains(search, &wc) {
            return true;
        }
        i = i + 1;
    }
    false
}

/// Applies a keyword-list rule to `text`.
pub fn apply_list_rule(
    result: &mut ValidationResult,
    rule: &Rule,
    keywords: &Vec<String>,
    exceptions: &Vec<String>,
    scope: &String,
    text: &str,
)
    ensures
        final(result)@ == list_effect(
            old(result)@,
            rule.id@,
            rule.severity@,
            rule.actions@,
            keywords@,
            exceptions@,
            scope@,
            text@,
        ),
{
    let search_s = get_search_text(text, scope.as_str());
    let search = chars_of(search_s.as_str());
    let mut found: Vec<String> = Vec::new();
    if !any_word_occurs(&search, exceptions) {
        let mut i: usize = 0;
        while i < keywords.len()
            invariant
                i <= keywords.len(),
                found.deep_view() == found_keywords(search@, keywords@.take(i as int)),
            decreases keywords.len() - i,
        {
            assert(keywords@.take(i + 1).drop_last() =~= keywords@.take(i as int));
            assert(keywords@.take(i + 1).last() == keywords@[i as int]);
            let kw = to_lowercase(keywords[i].as_str());
            let kwc = chars_of(kw.as_str());
            if contains(&search, &kwc) {
                let ghost before = found.deep_view();
                found.push(keywords[i].clone());
                assert(found.deep_view() =~= before.push(keywords@[i as int]@));
            }
            i = i + 1;
        }
        assert(keywords@.take(keywords.len() as int) =~= keywords@);
    } else {
        assert(found.deep_view() =~= Seq::<Seq<char>>::empty());
    }
    if found.len() > 0 {
        let mut m = tag_start(&rule.id);
        let msgs = collect_messages(&rule.actions);
        m.append(msgs.as_str());
        m.append(" — 감지: [");
        let joined = join_strings(&found, ", ");
        assert(found@.map_values(|p: String| p@) =~= found.deep_view());
        m.append(joined.as_str());
        m.append("]");
        assert(m@ =~= tagged(
            rule.id@,
            rule_message(rule.actions@) + " — 감지: ["@ + join(found.deep_view(), ", "@) + "]"@,
        ));
        push_by_severity(result, rule.severity.as_str(), m.as_str(), &rule.actions);
    }
}

// ---------------------------------------------------------------------------
// Section checks
// ---------------------------------------------------------------------------

/// The section content that a section check reads (empty when absent).
pub open spec fn section_content(text: Seq<char>, marker: Seq<char>) -> Seq<char> {
    match section_after(text, marker) {
        Some(c) => c,
        None => Seq::empty(),
    }
}

/// One section check: a missing marker, an empty or placeholder section
/// (starting with `(`), or a section shorter than its minimum in UTF-8
/// bytes is reported.
pub open spec fn section_effect(
    r: Findings,
    id: Seq<char>,
    severity: Seq<char>,
    actions: Seq<Action>,
    text: Seq<char>,
    sec: SectionDef,
) -> Findings {
    let marker = sec.marker@;
    let content = section_content(text, marker);
    let bytes = byte_len(content);
    if !has_substring(text, marker) {
        reported(r, severity, tagged(id, "섹션 누락: "@ + marker), actions)
    } else if content.len() == 0 || content[0] == '(' {
        reported(r, severity, tagged(id, "섹션 비어있음: "@ + marker), actions)
    } else if bytes < sec.min_length {
        reported(
            r,
            severity,
            tagged(
                id,
                "섹션 짧음: "@ + marker + " ("@ + decimal(bytes as nat) + "자 < "@ + decimal(
                    sec.min_length as nat,
                ) + "자)"@,
            ),
            actions,
        )
    } else {
        r
    }
}

/// The section checks applied in order.
pub open spec fn sections_effect(
    r: Findings,
    id: Seq<char>,
    severity: Seq<char>,
    actions: Seq<Action>,
    text: Seq<char>,
    secs: Seq<SectionDef>,
) -> Findings
    decreases secs.len(),
{
    if secs.len() == 0 {
        r
    } else {
        section_effect(
            sections_effect(r, id, severity, actions, text, secs.drop_last()),
            id,
            severity,
            actions,
            text,
            secs.last(),
        )
    }
}

/// Applies one section check.
fn apply_section(result: &mut ValidationResult, rule: &Rule, sec: &SectionDef, text: &str)
    ensures
        final(result)@ == section_effect(
            old(result)@,
            rule.id@,
            rule.severity@,
            rule.actions@,
            text@,
            *sec,
        ),
{
    if !str_contains(text, sec.marker.as_str()) {
        let mut m = tag_start(&rule.id);
        m.append("섹션 누락: ");
        m.append(sec.marker.as_str());
        assert(m@ =~= tagged(rule.id@, "섹션 누락: "@ + sec.marker@));
        push_by_severity(result, rule.severity.as_str(), m.as_str(), &rule.actions);
        return;
    }
    let content = match extract_section(text, sec.marker.as_str()) {
        Some(c) => c,
        None => String::new(),
    };
    assert(content@ == section_content(text@, sec.marker@));
    let cc = chars_of(content.as_str());
    let bytes = content.as_str().len();
    assert(bytes == byte_len(content@));
    if cc.len() == 0 || cc[0] == '(' {
        let mut m = tag_start(&rule.id);
        m.append("섹션 비어있음: ");
        m.append(sec.marker.as_str());
        assert(m@ =~= tagged(rule.id@, "섹션 비어있음: "@ + sec.marker@));
        push_by_severity(result, rule.severity.as_str(), m.as_str(), &rule.actions);
    } else if bytes < sec.min_length {
        let mut m = tag_start(&rule.id);
        m.append("섹션 짧음: ");
        m.append(sec.marker.as_str());
        m.append(" (");
        let a = nat_text(bytes as u64);
        m.append(a.as_str());
        m.append("자 < ");
        let b = nat_text(sec.min_length as u64);
        m.append(b.as_str());
        m.append("자)");
        assert(m@ =~= tagged(
            rule.id@,
            "섹션 짧음: "@ + sec.marker@ + " ("@ + decimal(bytes as nat) + "자 < "@ + decimal(
                sec.min_length as nat,
            ) + "자)"@,
        ));
        push_by_severity(result, rule.severity.as_str(), m.as_str(), &rule.actions);
    }
}

/// Applies a section-check rule to `text`.
pub fn apply_section_rule(
    result: &mut ValidationResult,
    rule: &Rule,
    sections: &Vec<SectionDef>,
    text: &str,
)
    ensures
        final(result)@ == sections_effect(
            old(result)@,
            rule.id@,
            rule.severity@,
            rule.actions@,
            text@,
            sections@,
        ),
{
    let ghost start = result@;
    let mut i: usize = 0;
    while i < sections.len()
        invariant
            i <= sections.len(),
            result@ == sections_effect(
                start,
                rule.id@,
                rule.severity@,
                rule.actions@,
                text@,
                sections@.take(i as int),
            ),
        decreases sections.len() - i,
    {
        assert(sections@.take(i + 1).drop_last() =~= sections@.take(i as int));
        assert(sections@.take(i + 1).last() == sections@[i as int]);
        apply_section(result, rule, &sections[i], text);
        i = i + 1;
    }
    assert(sections@.take(sections.len() as int) =~= sections@);
}

// ---------------------------------------------------------------------------
// Duplicate words across the seven sheet sections
// ---------------------------------------------------------------------------

/// The markers of the seven sections of a directing sheet, in order.
pub open spec fn section_markers() -> Seq<Seq<char>> {
    seq![
        "## Style"@,
        "## Composition"@,
        "## Character Details"@,
        "## Environmental Elements"@,
        "## Action Elements"@,
        "## Lighting & Atmosphere"@,
        "## Technical Details"@,
    ]
}

/// The names of the seven sections: their markers without `## `.
pub open spec fn section_names() -> Seq<Seq<char>> {
    seq![
        "Style"@,
        "Composition"@,
        "Character Details"@,
        "Environmental Elements"@,
        "Action Elements"@,
        "Lighting & Atmosphere"@,
        "Technical Details"@,
    ]
}

/// The marker of sheet section `i` (`0 <= i < 7`).
pub fn section_marker(i: usize) -> (r: &'static str)
    requires
        i < 7,
    ensures
        r@ == section_markers()[i as int],
{
    if i == 0 {
        "## Style"
    } else if i == 1 {
        "## Composition"
    } else if i == 2 {
        "## Character Details"
    } else if i == 3 {
        "## Environmental Elements"
    } else if i == 4 {
        "## Action Elements"
    } else if i == 5 {
        "## Lighting & Atmosphere"
    } else {
        "## Technical Details"
    }
}

/// The name of sheet section `i` (`0 <= i < 7`).
fn section_name(i: usize) -> (r: &'static str)
    requires
        i < 7,
    ensures
        r@ == section_names()[i as int],
{
    if i == 0 {
        "Style"
    } else if i == 1 {
        "Composition"
    } else if i == 2 {
        "Character Details"
    } else if i == 3 {
        "Environmental Elements"
    } else if i == 4 {
        "Action Elements"
    } else if i == 5 {
        "Lighting & Atmosphere"
    } else {
        "Technical Details"
    }
}

/// The pieces of `s` between non-alphanumeric characters, empty pieces
/// included (what `str::split(|c| !c.is_alphanumeric())` yields).
pub open spec fn split_words(s: Seq<char>) -> Seq<Seq<char>>
    decreases s.len(),
{
    if s.len() == 0 {
        seq![Seq::empty()]
    } else {
        let w = split_words(s.drop_last());
        if alphanumeric(s.last()) {
            w.update(w.len() - 1, w.last().push(s.last()))
        } else {
            w.push(Seq::empty())
        }
    }
}

/// There is always at least one piece.
pub proof fn lemma_split_words_nonempty(s: Seq<char>)
    ensures
        split_words(s).len() >= 1,
    decreases s.len(),
{
    if s.len() > 0 {
        lemma_split_words_nonempty(s.drop_last());
    }
}

/// Words with the sections they occur in, in order of first occurrence.
pub type WordSections = Seq<(Seq<char>, Seq<Seq<char>>)>;

/// The first slot of `w` in `ws`.
pub open spec fn word_slot(ws: WordSections, w: Seq<char>) -> Option<int>
    decreases ws.len(),
{
    if ws.len() == 0 {
        None
    } else {
        match word_slot(ws.drop_last(), w) {
            Some(i) => Some(i),
            None => if ws.last().0 == w {
                Some(ws.len() - 1)
            } else {
                None
            },
        }
    }
}

/// `ws` with `w` noted as occurring in section `sec`.
pub open spec fn add_word(ws: WordSections, w: Seq<char>, sec: Seq<char>) -> WordSections {
    match word_slot(ws, w) {
        Some(i) => if ws[i].1.contains(sec) {
            ws
        } else {
            ws.update(i, (w, ws[i].1.push(sec)))
        },
        None => ws.push((w, seq![sec])),
    }
}

/// A word is counted when it has at least `min_len` bytes and is not ignored.
pub open spec fn counted(w: Seq<char>, min_len: usize, ignore: Seq<String>) -> bool {
    byte_len(w) >= min_len && !(exists|i: int| 0 <= i < ignore.len() && #[trigger] ignore[i]@ == w)
}

/// `ws` with the counted `words` noted for section `sec`.
pub open spec fn add_words(
    ws: WordSections,
    words: Seq<Seq<char>>,
    sec: Seq<char>,
    min_len: usize,
    ignore: Seq<String>,
) -> WordSections
    decreases words.len(),
{
    if words.len() == 0 {
        ws
    } else {
        let ws0 = add_words(ws, words.drop_last(), sec, min_len, ignore);
        if counted(words.last(), min_len, ignore) {
            add_word(ws0, words.last(), sec)
        } else {
            ws0
        }
    }
}

/// The counted words of the first `n` sheet sections present in `text`.
pub open spec fn section_words(text: Seq<char>, n: int, min_len: usize, ignore: Seq<String>) -> WordSections
    decreases n,
{
    if n <= 0 {
        Seq::empty()
    } else {
        let ws = section_words(text, n - 1, min_len, ignore);
        match section_after(text, section_markers()[n - 1]) {
            Some(c) => add_words(ws, split_words(lowercase(c)), section_names()[n - 1], min_len, ignore),
            None => ws,
        }
    }
}

/// `'word' → sections` for each word in at least `threshold` sections.
pub open spec fn dup_lines(ws: WordSections, threshold: usize) -> Seq<Seq<char>>
    decreases ws.len(),
{
    if ws.len() == 0 {
        Seq::empty()
    } else {
        let rest = dup_lines(ws.drop_last(), threshold);
        let e = ws.last();
        if e.1.len() >= threshold {
            rest.push("'"@ + e.0 + "' → "@ + join(e.1, ", "@))
        } else {
            rest
        }
    }
}

/// A duplicate-word rule: the words shared by at least `threshold` sheet
/// sections are reported together.
pub open spec fn duplicate_effect(
    r: Findings,
    id: Seq<char>,
    severity: Seq<char>,
    actions: Seq<Action>,
    text: Seq<char>,
    min_len: usize,
    threshold: usize,
    ignore: Seq<String>,
) -> Findings {
    let dups = dup_lines(section_words(text, 7, min_len, ignore), threshold);
    if dups.len() == 0 {
        r
    } else {
        reported(r, severity, tagged(id, rule_message(actions) + " — "@ + join(dups, "; "@)), actions)
    }
}

/// A word and the sections it occurs in.
pub struct WordEntry {
    pub word: String,
    pub sections: Vec<String>,
}

/// The mathematical content of a list of word entries.
pub open spec fn entries_view(v: Seq<WordEntry>) -> WordSections {
    Seq::new(v.len(), |i: int| (v[i].word@, v[i].sections.deep_view()))
}

/// A slot found in a prefix stays the slot of the whole list.
pub proof fn lemma_word_slot_prefix(ws: WordSections, k: int, w: Seq<char>)
    requires
        0 <= k <= ws.len(),
        word_slot(ws.take(k), w) is Some,
    ensures
        word_slot(ws, w) == word_slot(ws.take(k), w),
    decreases ws.len(),
{
    if ws.len() == k {
        assert(ws.take(k) =~= ws);
    } else {
        assert(ws.drop_last().take(k) =~= ws.take(k));
        lemma_word_slot_prefix(ws.drop_last(), k, w);
    }
}

/// A slot holds the word it was found for.
pub proof fn lemma_word_slot_holds(ws: WordSections, w: Seq<char>)
    ensures
        word_slot(ws, w) matches Some(i) ==> 0 <= i < ws.len() && ws[i].0 == w,
    decreases ws.len(),
{
    if ws.len() > 0 {
        lemma_word_slot_holds(ws.drop_last(), w);
    }
}

/// The slot of `w` in `entries`.
fn find_word(entries: &Vec<WordEntry>, w: &String) -> (r: Option<usize>)
    ensures
        match r {
            Some(i) => word_slot(entries_view(entries@), w@) == Some(i as int) && i < entries.len(),
            None => word_slot(entries_view(entries@), w@) is None,
        },
{
    let ghost ws = entries_view(entries@);
    let mut k: usize = 0;
    assert(ws.take(0) =~= Seq::<(Seq<char>, Seq<Seq<char>>)>::empty());
    while k < entries.len()
        invariant
            k <= entries.len(),
            ws == entries_view(entries@),
            word_slot(ws.take(k as int), w@) is None,
        decreases entries.len() - k,
    {
        assert(ws.take(k + 1).drop_last() =~= ws.take(k as int));
        if same_text(entries[k].word.as_str(), w.as_str()) {
            assert(word_slot(ws.take(k + 1), w@) == Some(k as int));
            proof {
                lemma_word_slot_prefix(ws, k + 1, w@);
            }
            return Some(k);
        }
        k = k + 1;
    }
    assert(ws.take(entries.len() as int) =~= ws);
    None
}

/// Whether `items` holds a string equal to `s`.
fn has_string(items: &Vec<String>, s: &str) -> (r: bool)
    ensures
        r == items.deep_view().contains(s@),
{
    let mut i: usize = 0;
    while i < items.len()
        invariant
            i <= items.len(),
            forall|j: int| 0 <= j < i ==> items.deep_view()[j] != s@,
        decreases items.len() - i,
    {
        if same_text(items[i].as_str(), s) {
            assert(items.deep_view()[i as int] == s@);
            return true;
        }
        i = i + 1;
    }
    false
}

/// Notes `w` as occurring in section `sec`.
fn note_word(entries: &mut Vec<WordEntry>, w: String, sec: &str)
    ensures
        entries_view(final(entries)@) == add_word(entries_view(old(entries)@), w@, sec@),
{
    let ghost ws = entries_view(entries@);
    match find_word(entries, &w) {
        Some(i) => {
            proof {
                lemma_word_slot_holds(ws, w@);
            }
            if !has_string(&entries[i].sections, sec) {
                let ghost old_entries = entries@;
                let mut e = entries.remove(i);
                let ghost old_secs = e.sections.deep_view();
                e.sections.push(owned(sec));
                assert(e.sections.deep_view() =~= old_secs.push(sec@));
                entries.insert(i, e);
                assert(entries@ =~= old_entries.update(i as int, e));
                assert(entries_view(entries@) =~= ws.update(i as int, (w@, ws[i as int].1.push(sec@))));
            }
        },
        None => {
            let mut secs: Vec<String> = Vec::new();
            secs.push(owned(sec));
            assert(secs.deep_view() =~= seq![sec@]);
            entries.push(WordEntry { word: w, sections: secs });
            assert(entries_view(entries@) =~= ws.push((w@, seq![sec@])));
        },
    }
}

/// Whether a word counts: long enough in bytes and not ignored.
fn is_counted(w: &String, min_len: usize, ignore: &Vec<String>) -> (r: bool)
    ensures
        r == counted(w@, min_len, ignore@),
{
    let long_enough = w.as_str().len() >= min_len;
    let ignored = has_string(ignore, w.as_str());
    proof {
        if ignore.deep_view().contains(w@) {
            let j = choose|j: int| 0 <= j < ignore.deep_view().len() && ignore.deep_view()[j] == w@;
            assert(ignore@[j]@ == w@);
        }
        if exists|i: int| 0 <= i < ignore@.len() && #[trigger] ignore@[i]@ == w@ {
            let j = choose|i: int| 0 <= i < ignore@.len() && #[trigger] ignore@[i]@ == w@;
            assert(ignore.deep_view()[j] == w@);
        }
    }
    long_enough && !ignored
}

/// The pieces of `s` between non-alphanumeric characters.
fn words_of(s: &str) -> (r: Vec<String>)
    ensures
        r.deep_view() == split_words(s@),
{
    let cs = chars_of(s);
    let mut words: Vec<String> = Vec::new();
    let mut cur = String::new();
    let mut i: usize = 0;
    assert(cs@.take(0) =~= Seq::<char>::empty());
    assert(words.deep_view().push(cur@) =~= seq![Seq::<char>::empty()]);
    while i < cs.len()
        invariant
            i <= cs.len(),
            words.deep_view().push(cur@) == split_words(cs@.take(i as int)),
        decreases cs.len() - i,
    {
        let c = cs[i];
        let ghost prev = words.deep_view().push(cur@);
        assert(cs@.take(i + 1).drop_last() =~= cs@.take(i as int));
        assert(cs@.take(i + 1).last() == c);
        if is_alphanumeric(c) {
            let ghost before = words.deep_view();
            push_char(&mut cur, c);
            assert(words.deep_view().push(cur@) =~= prev.update(prev.len() - 1, prev.last().push(c)));
        } else {
            let ghost before = words.deep_view();
            let done = cur;
            words.push(done);
            cur = String::new();
            assert(words.deep_view() =~= before.push(done@));
            assert(words.deep_view().push(cur@) =~= prev.push(Seq::<char>::empty()));
        }
        i = i + 1;
    }
    assert(cs@.take(cs.len() as int) =~= cs@);
    let ghost before = words.deep_view();
    words.push(cur);
    assert(words.deep_view() =~= before.push(cur@));
    words
}

/// Notes the counted words of `words` for section `sec`.
fn note_words(
    entries: &mut Vec<WordEntry>,
    words: &Vec<String>,
    sec: &str,
    min_len: usize,
    ignore: &Vec<String>,
)
    ensures
        entries_view(final(entries)@) == add_words(
            entries_view(old(entries)@),
            words.deep_view(),
            sec@,
            min_len,
            ignore@,
        ),
{
    let ghost start = entries_view(entries@);
    let ghost wv = words.deep_view();
    let mut i: usize = 0;
    while i < words.len()
        invariant
            i <= words.len(),
            wv == words.deep_view(),
            entries_view(entries@) == add_words(start, wv.take(i as int), sec@, min_len, ignore@),
        decreases words.len() - i,
    {
        assert(wv.take(i + 1).drop_last() =~= wv.take(i as int));
        assert(wv.take(i + 1).last() == words@[i as int]@);
        if is_counted(&words[i], min_len, ignore) {
            note_word(entries, words[i].clone(), sec);
        }
        i = i + 1;
    }
    assert(wv.take(words.len() as int) =~= wv);
}

/// The lines of the words found in at least `threshold` sections.
fn duplicate_lines(entries: &Vec<WordEntry>, threshold: usize) -> (r: Vec<String>)
    ensures
        r.deep_view() == dup_lines(entries_view(entries@), threshold),
{
    let ghost ws = entries_view(entries@);
    let mut lines: Vec<String> = Vec::new();
    let mut i: usize = 0;
    while i < entries.len()
        invariant
            i <= entries.len(),
            ws == entries_view(entries@),
            lines.deep_view() == dup_lines(ws.take(i as int), threshold),
        decreases entries.len() - i,
    {
        assert(ws.take(i + 1).drop_last() =~= ws.take(i as int));
        assert(ws.take(i + 1).last() == ws[i as int]);
        let e = &entries[i];
        if e.sections.len() >= threshold {
            let mut line = owned("'");
            line.append(e.word.as_str());
            line.append("' → ");
            let secs = join_strings(&e.sections, ", ");
            assert(e.sections@.map_values(|p: String| p@) =~= e.sections.deep_view());
            line.append(secs.as_str());
            let ghost before = lines.deep_view();
            lines.push(line);
            assert(lines.deep_view() =~= before.push(
                "'"@ + e.word@ + "' → "@ + join(e.sections.deep_view(), ", "@),
            ));
        }
        i = i + 1;
    }
    assert(ws.take(entries.len() as int) =~= ws);
    lines
}

/// Applies a duplicate-word rule to `text`.
pub fn apply_duplicate_rule(
    result: &mut ValidationResult,
    rule: &Rule,
    min_word_length: usize,
    threshold: usize,
    ignore: &Vec<String>,
    text: &str,
)
    ensures
        final(result)@ == duplicate_effect(
            old(result)@,
            rule.id@,
            rule.severity@,
            rule.actions@,
            text@,
            min_word_length,
            threshold,
            ignore@,
        ),
{
    let mut entries: Vec<WordEntry> = Vec::new();
    let mut n: usize = 0;
    assert(entries_view(entries@) =~= section_words(text@, 0, min_word_length, ignore@));
    while n < 7
        invariant
            n <= 7,
            entries_view(entries@) == section_words(text@, n as int, min_word_length, ignore@),
        decreases 7 - n,
    {
        let marker = section_marker(n);
        match extract_section(text, marker) {
            Some(content) => {
                let lower = to_lowercase(content.as_str());
                let words = words_of(lower.as_str());
                note_words(&mut entries, &words, section_name(n), min_word_length, ignore);
            },
            None => {},
        }
        n = n + 1;
    }
    let lines = duplicate_lines(&entries, threshold);
    if lines.len() > 0 {
        let mut m = tag_start(&rule.id);
        let msgs = collect_messages(&rule.actions);
        m.append(msgs.as_str());
        m.append(" — ");
        let joined = join_strings(&lines, "; ");
        assert(lines@.map_values(|p: String| p@) =~= lines.deep_view());
        m.append(joined.as_str());
        assert(m@ =~= tagged(
            rule.id@,
            rule_message(rule.actions@) + " — "@ + join(lines.deep_view(), "; "@),
        ));
        push_by_severity(result, rule.severity.as_str(), m.as_str(), &rule.actions);
    }
}

// ---------------------------------------------------------------------------
// Regular expressions
// ---------------------------------------------------------------------------

/// What `regex_lite` finds for `pattern` in `haystack`: `None` when the
/// pattern does not compile, otherwise capture group `group` of every
/// successive non-overlapping match (`None` where that group did not take
/// part).
pub uninterp spec fn regex_group(pattern: Seq<char>, haystack: Seq<char>, group: usize) -> Option<
    Seq<Option<Seq<char>>>,
>;

/// Calls `regex_lite::Regex::new(pattern)` and, when it compiles,
/// `Regex::captures_iter(haystack)`, taking `Captures::get(group)` of each
/// match as an owned string. The contract only names the result
/// (`regex_group`); it says nothing of what the matches are.
#[verifier::external_body]
fn capture_group(pattern: &str, haystack: &str, group: usize) -> (r: Option<Vec<Option<String>>>)
    ensures
        r.deep_view() == regex_group(pattern@, haystack@, group),
{
    match regex_lite::Regex::new(pattern) {
        Ok(re) => Some(
            re.captures_iter(haystack).map(|c| c.get(group).map(|m| m.as_str().to_string())).collect(),
        ),
        Err(_) => None,
    }
}

/// The capture group whose values a regular-expression rule checks.
pub open spec fn checked_group() -> usize {
    1
}

/// Some allowed value, lowercased, equals `val`.
pub open spec fn allowed_match(allowed: Seq<String>, val: Seq<char>) -> bool {
    exists|i: int| 0 <= i < allowed.len() && lowercase(#[trigger] allowed[i]@) == val
}

/// `, 기본값: N` when a default is given.
pub open spec fn default_note(default: Option<u32>) -> Seq<char> {
    match default {
        Some(d) => ", 기본값: "@ + decimal(d as nat),
        None => Seq::empty(),
    }
}

/// One captured value: reported when it is not among the allowed values
/// (if any are listed), and reported again when it is a number outside the
/// range (if a range is given).
pub open spec fn capture_effect(
    r: Findings,
    id: Seq<char>,
    severity: Seq<char>,
    actions: Seq<Action>,
    allowed: Seq<String>,
    range: Option<RangeCheck>,
    default: Option<u32>,
    val: Seq<char>,
) -> Findings {
    let r1 = if allowed.len() > 0 && !allowed_match(allowed, val) {
        reported(r, severity, tagged(id, rule_message(actions) + " (값: "@ + val + ")"@), actions)
    } else {
        r
    };
    match range {
        Some(rc) => match parse_i64(val) {
            Some(num) => if num < rc.min || num > rc.max {
                reported(
                    r1,
                    severity,
                    tagged(
                        id,
                        "범위 초과: "@ + signed_decimal(num as int) + " (허용: "@ + signed_decimal(
                            rc.min as int,
                        ) + "~"@ + signed_decimal(rc.max as int) + default_note(default) + ")"@,
                    ),
                    actions,
                )
            } else {
                r1
            },
            None => r1,
        },
        None => r1,
    }
}

/// The captured values checked in order; matches without group 1 are skipped.
pub open spec fn captures_effect(
    r: Findings,
    id: Seq<char>,
    severity: Seq<char>,
    actions: Seq<Action>,
    allowed: Seq<String>,
    range: Option<RangeCheck>,
    default: Option<u32>,
    caps: Seq<Option<Seq<char>>>,
) -> Findings
    decreases caps.len(),
{
    if caps.len() == 0 {
        r
    } else {
        let r0 = captures_effect(r, id, severity, actions, allowed, range, default, caps.drop_last());
        match caps.last() {
            Some(val) => capture_effect(r0, id, severity, actions, allowed, range, default, val),
            None => r0,
        }
    }
}

/// A regular-expression rule: nothing when the pattern does not compile,
/// otherwise each captured value of the searched text is checked.
pub open spec fn regex_effect(
    r: Findings,
    id: Seq<char>,
    severity: Seq<char>,
    actions: Seq<Action>,
    pattern: Seq<char>,
    allowed: Seq<String>,
    range: Option<RangeCheck>,
    default: Option<u32>,
    scope: Seq<char>,
    text: Seq<char>,
) -> Findings {
    match regex_group(pattern, search_text(text, scope), checked_group()) {
        None => r,
        Some(caps) => captures_effect(r, id, severity, actions, allowed, range, default, caps),
    }
}

/// Whether one of the allowed values, lowercased, equals `val`.
fn is_allowed(allowed: &Vec<String>, val: &str) -> (r: bool)
    ensures
        r == allowed_match(allowed@, val@),
{
    let mut i: usize = 0;
    while i < allowed.len()
        invariant
            i <= allowed.len(),
            forall|j: int| 0 <= j < i ==> lowercase(#[trigger] allowed@[j]@) != val@,
        decreases allowed.len() - i,
    {
        let lower = to_lowercase(allowed[i].as_str());
        if same_text(lower.as_str(), val) {
            return true;
        }
        i = i + 1;
    }
    false
}

/// Checks one captured value.
fn check_capture(
    result: &mut ValidationResult,
    rule: &Rule,
    allowed: &Vec<String>,
    range: Option<RangeCheck>,
    default: Option<u32>,
    val: &String,
)
    ensures
        final(result)@ == capture_effect(
            old(result)@,
            rule.id@,
            rule.severity@,
            rule.actions@,
            allowed@,
            range,
            default,
            val@,
        ),
{
    if allowed.len() > 0 && !is_allowed(allowed, val.as_str()) {
        let mut m = tag_start(&rule.id);
        let msgs = collect_messages(&rule.actions);
        m.append(msgs.as_str());
        m.append(" (값: ");
        m.append(val.as_str());
        m.append(")");
        assert(m@ =~= tagged(rule.id@, rule_message(rule.actions@) + " (값: "@ + val@ + ")"@));
        push_by_severity(result, rule.severity.as_str(), m.as_str(), &rule.actions);
    }
    if let Some(rc) = range {
        if let Some(num) = parse_int(val.as_str()) {
            if num < rc.min || num > rc.max {
                let mut m = tag_start(&rule.id);
                m.append("범위 초과: ");
                let a = int_text(num);
                m.append(a.as_str());
                m.append(" (허용: ");
                let b = int_text(rc.min);
                m.append(b.as_str());
                m.append("~");
                let c = int_text(rc.max);
                m.append(c.as_str());
                match default {
                    Some(d) => {
                        m.append(", 기본값: ");
                        let e = nat_text(d as u64);
                        m.append(e.as_str());
                    },
                    None => {},
                }
                m.append(")");
                assert(m@ =~= tagged(
                    rule.id@,
                    "범위 초과: "@ + signed_decimal(num as int) + " (허용: "@ + signed_decimal(
                        rc.min as int,
                    ) + "~"@ + signed_decimal(rc.max as int) + default_note(default) + ")"@,
                ));
                push_by_severity(result, rule.severity.as_str(), m.as_str(), &rule.actions);
            }
        }
    }
}

/// Checks the values that group 1 of a rule's regular expression captured,
/// in order.
pub fn apply_captures(
    result: &mut ValidationResult,
    rule: &Rule,
    allowed: &Vec<String>,
    range: Option<RangeCheck>,
    default: Option<u32>,
    captures: &Vec<Option<String>>,
)
    ensures
        final(result)@ == captures_effect(
            old(result)@,
            rule.id@,
            rule.severity@,
            rule.actions@,
            allowed@,
            range,
            default,
            captures.deep_view(),
        ),
{
    let ghost start = result@;
    let ghost caps = captures.deep_view();
    let mut i: usize = 0;
    while i < captures.len()
        invariant
            i <= captures.len(),
            caps == captures.deep_view(),
            result@ == captures_effect(
                start,
                rule.id@,
                rule.severity@,
                rule.actions@,
                allowed@,
                range,
                default,
                caps.take(i as int),
            ),
        decreases captures.len() - i,
    {
        assert(caps.take(i + 1).drop_last() =~= caps.take(i as int));
        assert(caps.take(i + 1).last() == captures@[i as int].deep_view());
        match &captures[i] {
            Some(val) => check_capture(result, rule, allowed, range, default, val),
            None => {},
        }
        i = i + 1;
    }
    assert(caps.take(captures.len() as int) =~= caps);
}

/// Applies a regular-expression rule to `text`.
pub fn apply_regex_rule(
    result: &mut ValidationResult,
    rule: &Rule,
    pattern: &String,
    allowed: &Vec<String>,
    range: Option<RangeCheck>,
    default: Option<u32>,
    scope: &String,
    text: &str,
)
    ensures
        final(result)@ == regex_effect(
            old(result)@,
            rule.id@,
            rule.severity@,
            rule.actions@,
            pattern@,
            allowed@,
            range,
            default,
            scope@,
            text@,
        ),
{
    let search = get_search_text(text, scope.as_str());
    match capture_group(pattern.as_str(), search.as_str(), 1) {
        Some(caps) => apply_captures(result, rule, allowed, range, default, &caps),
        None => {},
    }
}

// ---------------------------------------------------------------------------
// All rules
// ---------------------------------------------------------------------------

/// What one rule adds to the findings.
pub open spec fn rule_effect(r: Findings, rule: Rule, text: Seq<char>) -> Findings {
    let id = rule.id@;
    let sev = rule.severity@;
    let acts = rule.actions@;
    match rule.match_def {
        MatchDef::List { keywords, exceptions, scope } => list_effect(
            r,
            id,
            sev,
            acts,
            keywords@,
            exceptions@,
            scope@,
            text,
        ),
        MatchDef::SectionCheck { sections } => sections_effect(r, id, sev, acts, text, sections@),
        MatchDef::Duplicate { min_word_length, threshold, ignore } => duplicate_effect(
            r,
            id,
            sev,
            acts,
            text,
            min_word_length,
            threshold,
            ignore@,
        ),
        MatchDef::Regex { pattern, allowed_values, range, default, scope } => regex_effect(
            r,
            id,
            sev,
            acts,
            pattern@,
            allowed_values@,
            range,
            default,
            scope@,
            text,
        ),
    }
}

/// The findings of the rules applied in order, starting from none.
pub open spec fn rules_effect(rules: Seq<Rule>, text: Seq<char>) -> Findings
    decreases rules.len(),
{
    if rules.len() == 0 {
        no_findings()
    } else {
        rule_effect(rules_effect(rules.drop_last(), text), rules.last(), text)
    }
}

/// The findings for `text`: a single warning when the rules could not be
/// loaded, otherwise those of the rules in order.
pub open spec fn validation_of(rules: Option<Seq<Rule>>, text: Seq<char>) -> Findings {
    match rules {
        None => Findings {
            errors: Seq::empty(),
            warnings: seq!["규칙 파일 로드 실패 — 검증 건너뜀"@],
            suggest_video: false,
        },
        Some(rs) => rules_effect(rs, text),
    }
}

/// The rules of a loaded file, if any.
pub open spec fn loaded_rules(rules: Option<RulesFile>) -> Option<Seq<Rule>> {
    match rules {
        Some(f) => Some(f.rules@),
        None => None,
    }
}

/// Applies one rule to `text`.
pub fn apply_rule(result: &mut ValidationResult, rule: &Rule, text: &str)
    ensures
        final(result)@ == rule_effect(old(result)@, *rule, text@),
{
    match &rule.match_def {
        MatchDef::List { keywords, exceptions, scope } => apply_list_rule(
            result,
            rule,
            keywords,
            exceptions,
            scope,
            text,
        ),
        MatchDef::SectionCheck { sections } => apply_section_rule(result, rule, sections, text),
        MatchDef::Duplicate { min_word_length, threshold, ignore } => apply_duplicate_rule(
            result,
            rule,
            *min_word_length,
            *threshold,
            ignore,
            text,
        ),
        MatchDef::Regex { pattern, allowed_values, range, default, scope } => apply_regex_rule(
            result,
            rule,
            pattern,
            allowed_values,
            *range,
            *default,
            scope,
            text,
        ),
    }
}

/// Checks a prompt against the rules (`None` when the rule file could not
/// be loaded).
pub fn validate_prompt_rules(rules: &Option<RulesFile>, text: &str) -> (r: ValidationResult)
    ensures
        r@ == validation_of(loaded_rules(*rules), text@),
{
    let mut result = ValidationResult::new();
    match rules {
        None => {
            result.warnings.push(owned("규칙 파일 로드 실패 — 검증 건너뜀"));
            assert(result@.warnings =~= seq!["규칙 파일 로드 실패 — 검증 건너뜀"@]);
            result
        },
        Some(file) => {
            let mut i: usize = 0;
            while i < file.rules.len()
                invariant
                    i <= file.rules.len(),
                    result@ == rules_effect(file.rules@.take(i as int), text@),
                decreases file.rules.len() - i,
            {
                assert(file.rules@.take(i + 1).drop_last() =~= file.rules@.take(i as int));
                assert(file.rules@.take(i + 1).last() == file.rules@[i as int]);
                apply_rule(&mut result, &file.rules[i], text);
                i = i + 1;
            }
            assert(file.rules@.take(file.rules.len() as int) =~= file.rules@);
            result
        },
    }
}

// ---------------------------------------------------------------------------
// Presenting a result
// ---------------------------------------------------------------------------

/// Each line marked with `mark` in front.
pub open spec fn marked(lines: Seq<Seq<char>>, mark: Seq<char>) -> Seq<Seq<char>>
    decreases lines.len(),
{
    if lines.len() == 0 {
        Seq::empty()
    } else {
        marked(lines.drop_last(), mark).push(mark + lines.last())
    }
}

/// The lines that present findings: a pass line when there is nothing,
/// otherwise the errors, the warnings and, when a video suits the prompt
/// better, an empty line and the hint.
pub open spec fn report_lines(f: Findings) -> Seq<Seq<char>> {
    if f.errors.len() == 0 && f.warnings.len() == 0 {
        seq!["✅ 검증 통과"@]
    } else {
        marked(f.errors, "  ❌ "@) + marked(f.warnings, "  ⚠️  "@) + if f.suggest_video {
            seq![Seq::empty(), "  💡 이 프롬프트는 영상에 더 적합합니다. `avp`로 타임라인을 분할하세요."@]
        } else {
            Seq::empty()
        }
    }
}

/// Appends each of `items` with `mark` in front to `out`.
fn push_marked(out: &mut Vec<String>, items: &Vec<String>, mark: &str)
    ensures
        final(out).deep_view() == old(out).deep_view() + marked(items.deep_view(), mark@),
{
    let ghost start = out.deep_view();
    let ghost iv = items.deep_view();
    let mut i: usize = 0;
    assert(iv.take(0) =~= Seq::<Seq<char>>::empty());
    assert(start + marked(Seq::<Seq<char>>::empty(), mark@) =~= start);
    while i < items.len()
        invariant
            i <= items.len(),
            iv == items.deep_view(),
            out.deep_view() == start + marked(iv.take(i as int), mark@),
        decreases items.len() - i,
    {
        assert(iv.take(i + 1).drop_last() =~= iv.take(i as int));
        assert(iv.take(i + 1).last() == items@[i as int]@);
        let mut line = owned(mark);
        line.append(items[i].as_str());
        let ghost before = out.deep_view();
        out.push(line);
        assert(out.deep_view() =~= before.push(mark@ + items@[i as int]@));
        i = i + 1;
    }
    assert(iv.take(items.len() as int) =~= iv);
}

/// The lines that present a validation result.
pub fn validation_lines(result: &ValidationResult) -> (r: Vec<String>)
    ensures
        r.deep_view() == report_lines(result@),
{
    let mut out: Vec<String> = Vec::new();
    if result.errors.len() == 0 && result.warnings.len() == 0 {
        out.push(owned("✅ 검증 통과"));
        assert(out.deep_view() =~= seq!["✅ 검증 통과"@]);
        return out;
    }
    assert(out.deep_view() =~= Seq::<Seq<char>>::empty());
    push_marked(&mut out, &result.errors, "  ❌ ");
    push_marked(&mut out, &result.warnings, "  ⚠️  ");
    let ghost lists = out.deep_view();
    if result.suggest_video {
        out.push(String::new());
        out.push(owned("  💡 이 프롬프트는 영상에 더 적합합니다. `avp`로 타임라인을 분할하세요."));
        assert(out.deep_view() =~= lists + seq![
            Seq::<char>::empty(),
            "  💡 이 프롬프트는 영상에 더 적합합니다. `avp`로 타임라인을 분할하세요."@,
        ]);
    } else {
        assert(out.deep_view() =~= lists + Seq::<Seq<char>>::empty());
    }
    out
}

// ---------------------------------------------------------------------------
// Laws
// ---------------------------------------------------------------------------

/// Law: every report adds exactly one line, to the errors for severity
/// `error` and to the warnings otherwise, and keeps the earlier lines.
pub proof fn lemma_report_adds_one_line(r: Findings, severity: Seq<char>, msg: Seq<char>, actions: Seq<Action>)
    ensures
        ({
            let r2 = reported(r, severity, msg, actions);
            &&& r2.errors.len() + r2.warnings.len() == r.errors.len() + r.warnings.len() + 1
            &&& r2.errors.take(r.errors.len() as int) == r.errors
            &&& r2.warnings.take(r.warnings.len() as int) == r.warnings
            &&& (severity == "error"@ <==> r2.errors.len() == r.errors.len() + 1)
            &&& (r.suggest_video ==> r2.suggest_video)
        }),
{
    let r2 = reported(r, severity, msg, actions);
    assert(r2.errors.take(r.errors.len() as int) =~= r.errors);
    assert(r2.warnings.take(r.warnings.len() as int) =~= r.warnings);
}

/// The mark in front of an information finding.
pub open spec fn info_mark() -> Seq<char> {
    "ℹ️  "@
}

/// `r1` is `r0` with reports of severity `sev` added: the earlier lines
/// stay, a video suggestion only comes with a new error, a severity other
/// than `error` adds no error and no suggestion, and `info` adds only
/// warnings that carry the information mark.
pub open spec fn extends_by(r0: Findings, r1: Findings, sev: Seq<char>) -> bool {
    &&& r0.errors.len() <= r1.errors.len()
    &&& r1.errors.take(r0.errors.len() as int) == r0.errors
    &&& r0.warnings.len() <= r1.warnings.len()
    &&& r1.warnings.take(r0.warnings.len() as int) == r0.warnings
    &&& (r0.suggest_video ==> r1.suggest_video)
    &&& (r1.suggest_video ==> r0.suggest_video || r0.errors.len() < r1.errors.len())
    &&& (sev != "error"@ ==> r1.errors == r0.errors && r1.suggest_video == r0.suggest_video)
    &&& (sev == "info"@ ==> forall|k: int|
        r0.warnings.len() <= k < r1.warnings.len() ==> has_prefix(
            #[trigger] r1.warnings[k],
            info_mark(),
        ))
}

proof fn lemma_extends_refl(r: Findings, sev: Seq<char>)
    ensures
        extends_by(r, r, sev),
{
    assert(r.errors.take(r.errors.len() as int) =~= r.errors);
    assert(r.warnings.take(r.warnings.len() as int) =~= r.warnings);
}

proof fn lemma_extends_trans(a: Findings, b: Findings, c: Findings, sev: Seq<char>)
    requires
        extends_by(a, b, sev),
        extends_by(b, c, sev),
    ensures
        extends_by(a, c, sev),
{
    assert(c.errors.take(a.errors.len() as int) =~= c.errors.take(b.errors.len() as int).take(
        a.errors.len() as int,
    ));
    assert(c.warnings.take(a.warnings.len() as int) =~= c.warnings.take(
        b.warnings.len() as int,
    ).take(a.warnings.len() as int));
    if sev == "info"@ {
        assert forall|k: int| a.warnings.len() <= k < c.warnings.len() implies has_prefix(
            #[trigger] c.warnings[k],
            info_mark(),
        ) by {
            if k < b.warnings.len() {
                assert(c.warnings[k] == c.warnings.take(b.warnings.len() as int)[k]);
                assert(has_prefix(b.warnings[k], info_mark()));
            }
        }
    }
}

proof fn lemma_reported_extends(r: Findings, sev: Seq<char>, msg: Seq<char>, actions: Seq<Action>)
    ensures
        extends_by(r, reported(r, sev, msg, actions), sev),
{
    let r2 = reported(r, sev, msg, actions);
    assert(r2.errors.take(r.errors.len() as int) =~= r.errors);
    assert(r2.warnings.take(r.warnings.len() as int) =~= r.warnings);
    if sev == "info"@ {
        assert((info_mark() + msg).take(info_mark().len() as int) =~= info_mark());
        assert forall|k: int| r.warnings.len() <= k < r2.warnings.len() implies has_prefix(
            #[trigger] r2.warnings[k],
            info_mark(),
        ) by {
            assert(k == r.warnings.len());
            assert(r2.warnings[k] == info_mark() + msg);
        }
    }
}

proof fn lemma_sections_extend(
    r: Findings,
    id: Seq<char>,
    severity: Seq<char>,
    actions: Seq<Action>,
    text: Seq<char>,
    secs: Seq<SectionDef>,
)
    ensures
        extends_by(r, sections_effect(r, id, severity, actions, text, secs), severity),
    decreases secs.len(),
{
    if secs.len() == 0 {
        lemma_extends_refl(r, severity);
    } else {
        let r0 = sections_effect(r, id, severity, actions, text, secs.drop_last());
        lemma_sections_extend(r, id, severity, actions, text, secs.drop_last());
        let sec = secs.last();
        let marker = sec.marker@;
        let content = section_content(text, marker);
        let bytes = byte_len(content);
        if !has_substring(text, marker) {
            lemma_reported_extends(r0, severity, tagged(id, "섹션 누락: "@ + marker), actions);
        } else if content.len() == 0 || content[0] == '(' {
            lemma_reported_extends(r0, severity, tagged(id, "섹션 비어있음: "@ + marker), actions);
        } else if bytes < sec.min_length {
            lemma_reported_extends(
                r0,
                severity,
                tagged(
                    id,
                    "섹션 짧음: "@ + marker + " ("@ + decimal(bytes as nat) + "자 < "@ + decimal(
                        sec.min_length as nat,
                    ) + "자)"@,
                ),
                actions,
            );
        } else {
            lemma_extends_refl(r0, severity);
        }
        lemma_extends_trans(r, r0, sections_effect(r, id, severity, actions, text, secs), severity);
    }
}

proof fn lemma_capture_extends(
    r: Findings,
    id: Seq<char>,
    severity: Seq<char>,
    actions: Seq<Action>,
    allowed: Seq<String>,
    range: Option<RangeCheck>,
    default: Option<u32>,
    val: Seq<char>,
)
    ensures
        extends_by(
            r,
            capture_effect(r, id, severity, actions, allowed, range, default, val),
            severity,
        ),
{
    let r1 = if allowed.len() > 0 && !allowed_match(allowed, val) {
        reported(r, severity, tagged(id, rule_message(actions) + " (값: "@ + val + ")"@), actions)
    } else {
        r
    };
    if allowed.len() > 0 && !allowed_match(allowed, val) {
        lemma_reported_extends(
            r,
            severity,
            tagged(id, rule_message(actions) + " (값: "@ + val + ")"@),
            actions,
        );
    } else {
        lemma_extends_refl(r, severity);
    }
    let r2 = capture_effect(r, id, severity, actions, allowed, range, default, val);
    if r2 == r1 {
        lemma_extends_refl(r1, severity);
    } else {
        let rc = range.unwrap();
        let num = parse_i64(val).unwrap();
        lemma_reported_extends(
            r1,
            severity,
            tagged(
                id,
                "범위 초과: "@ + signed_decimal(num as int) + " (허용: "@ + signed_decimal(
                    rc.min as int,
                ) + "~"@ + signed_decimal(rc.max as int) + default_note(default) + ")"@,
            ),
            actions,
        );
    }
    lemma_extends_trans(r, r1, r2, severity);
}

proof fn lemma_captures_extend(
    r: Findings,
    id: Seq<char>,
    severity: Seq<char>,
    actions: Seq<Action>,
    allowed: Seq<String>,
    range: Option<RangeCheck>,
    default: Option<u32>,
    caps: Seq<Option<Seq<char>>>,
)
    ensures
        extends_by(
            r,
            captures_effect(r, id, severity, actions, allowed, range, default, caps),
            severity,
        ),
    decreases caps.len(),
{
    if caps.len() == 0 {
        lemma_extends_refl(r, severity);
    } else {
        let r0 = captures_effect(r, id, severity, actions, allowed, range, default, caps.drop_last());
        lemma_captures_extend(r, id, severity, actions, allowed, range, default, caps.drop_last());
        match caps.last() {
            Some(val) => {
                lemma_capture_extends(r0, id, severity, actions, allowed, range, default, val);
            },
            None => {
                lemma_extends_refl(r0, severity);
            },
        }
        lemma_extends_trans(
            r,
            r0,
            captures_effect(r, id, severity, actions, allowed, range, default, caps),
            severity,
        );
    }
}

/// Law: a rule only adds findings of its own severity: it keeps the
/// earlier findings, a video suggestion only comes with one of its errors,
/// a rule whose severity is not `error` adds no error and no suggestion,
/// and an `info` rule adds only warnings that carry the information mark.
pub proof fn lemma_rule_adds_own_severity(r: Findings, rule: Rule, text: Seq<char>)
    ensures
        extends_by(r, rule_effect(r, rule, text), rule.severity@),
{
    let id = rule.id@;
    let sev = rule.severity@;
    let acts = rule.actions@;
    match rule.match_def {
        MatchDef::List { keywords, exceptions, scope } => {
            let search = search_text(text, scope@);
            let found = if any_occurs(search, exceptions@) {
                Seq::empty()
            } else {
                found_keywords(search, keywords@)
            };
            if found.len() == 0 {
                lemma_extends_refl(r, sev);
            } else {
                lemma_reported_extends(
                    r,
                    sev,
                    tagged(id, rule_message(acts) + " — 감지: ["@ + join(found, ", "@) + "]"@),
                    acts,
                );
            }
        },
        MatchDef::SectionCheck { sections } => {
            lemma_sections_extend(r, id, sev, acts, text, sections@);
        },
        MatchDef::Duplicate { min_word_length, threshold, ignore } => {
            let dups = dup_lines(section_words(text, 7, min_word_length, ignore@), threshold);
            if dups.len() == 0 {
                lemma_extends_refl(r, sev);
            } else {
                lemma_reported_extends(
                    r,
                    sev,
                    tagged(id, rule_message(acts) + " — "@ + join(dups, "; "@)),
                    acts,
                );
            }
        },
        MatchDef::Regex { pattern, allowed_values, range, default, scope } => {
            match regex_group(pattern@, search_text(text, scope@), checked_group()) {
                None => {
                    lemma_extends_refl(r, sev);
                },
                Some(caps) => {
                    lemma_captures_extend(r, id, sev, acts, allowed_values@, range, default, caps);
                },
            }
        },
    }
}

/// No rule (if any were loaded) has severity `error`.
pub open spec fn no_error_rules(rules: Option<Seq<Rule>>) -> bool {
    match rules {
        None => true,
        Some(rs) => forall|i: int| 0 <= i < rs.len() ==> (#[trigger] rs[i]).severity@ != "error"@,
    }
}

/// Law: over any rules and any text, a video suggestion only comes with an
/// error; rules none of which has severity `error` give no error and no
/// suggestion; no rules at all give no findings.
pub proof fn lemma_validation_shape(rules: Option<Seq<Rule>>, text: Seq<char>)
    ensures
        validation_of(rules, text).suggest_video ==> validation_of(rules, text).errors.len() > 0,
        no_error_rules(rules) ==> validation_of(rules, text).errors.len() == 0 && !validation_of(
            rules,
            text,
        ).suggest_video,
        rules == Some(Seq::<Rule>::empty()) ==> validation_of(rules, text) == no_findings(),
{
    match rules {
        None => {},
        Some(rs) => {
            lemma_rules_shape(rs, text);
        },
    }
}

proof fn lemma_rules_shape(rules: Seq<Rule>, text: Seq<char>)
    ensures
        rules_effect(rules, text).suggest_video ==> rules_effect(rules, text).errors.len() > 0,
        (forall|i: int| 0 <= i < rules.len() ==> (#[trigger] rules[i]).severity@ != "error"@)
            ==> rules_effect(rules, text).errors.len() == 0 && !rules_effect(rules, text).suggest_video,
    decreases rules.len(),
{
    if rules.len() > 0 {
        let front = rules.drop_last();
        lemma_rules_shape(front, text);
        lemma_rule_adds_own_severity(rules_effect(front, text), rules.last(), text);
        if forall|i: int| 0 <= i < rules.len() ==> (#[trigger] rules[i]).severity@ != "error"@ {
            assert forall|i: int| 0 <= i < front.len() implies (#[trigger] front[i]).severity@
                != "error"@ by {
                assert(front[i] == rules[i]);
            }
            assert(rules.last() == rules[rules.len() - 1]);
        }
    }
}

/// Law: for a non-empty marker, a section is found exactly when the marker
/// occurs in the text, and a section found is a trimmed piece of the text
/// that holds no `## `.
pub proof fn lemma_section_in_text(text: Seq<char>, marker: Seq<char>)
    requires
        marker.len() > 0,
    ensures
        section_after(text, marker) is Some <==> has_substring(text, marker),
        section_after(text, marker) matches Some(c) ==> {
            &&& trim(c) == c
            &&& !has_substring(c, "## "@)
            &&& exists|a: int, b: int| 0 <= a <= b <= text.len() && c == text.subrange(a, b)
        },
{
    reveal_strlit("## ");
    lemma_section_is_trimmed(text, marker);
    if let Some(i) = first_index(text, marker) {
        crate::text::lemma_find_from_bounds(text, marker, 0);
        let rest = text.skip(i + marker.len());
        let piece = before_first(rest, marker);
        crate::text::lemma_before_first_shape(rest, marker);
        let head = before_first(piece, "## "@);
        crate::text::lemma_before_first_shape(piece, "## "@);
        let c = trim(head);
        crate::text::lemma_trim_piece(head);
        let (a, b) = choose|a: int, b: int| 0 <= a <= b <= head.len() && c == head.subrange(a, b);
        crate::text::lemma_substring_free(head, "## "@, a, b);
        let start = i + marker.len();
        assert(c =~= text.subrange(start + a, start + b));
    }
}

/// Law: the text a rule searches is always a lowercased text; for a scope
/// `section:NAME` it is the lowercased content of section `## NAME` (the
/// lowercased empty text when the section is absent), and for `all` it is
/// the lowercased whole text.
pub proof fn lemma_search_text_lowercased(text: Seq<char>, scope: Seq<char>, name: Seq<char>)
    ensures
        exists|x: Seq<char>| search_text(text, scope) == lowercase(x),
        search_text(text, "all"@) == lowercase(text),
        section_after(text, "## "@ + name) matches Some(c) ==> search_text(
            text,
            "section:"@ + name,
        ) == lowercase(c),
        section_after(text, "## "@ + name) is None ==> search_text(text, "section:"@ + name)
            == lowercase(Seq::empty()),
{
    reveal_strlit("all");
    reveal_strlit("section:");
    let sc = "section:"@ + name;
    assert(sc.take("section:"@.len() as int) =~= "section:"@);
    assert(sc.skip("section:"@.len() as int) =~= name);
    assert(sc != "all"@) by {
        assert(sc.len() != "all"@.len());
    }
    if scope == "all"@ {
        assert(search_text(text, scope) == lowercase(text));
    } else if scope.len() >= "section:"@.len() && scope.take("section:"@.len() as int)
        == "section:"@ {
        let marker = "## "@ + scope.skip("section:"@.len() as int);
        match section_after(text, marker) {
            Some(c) => {
                assert(search_text(text, scope) == lowercase(c));
            },
            None => {
                assert(search_text(text, scope) == lowercase(Seq::<char>::empty()));
            },
        }
    } else {
        assert(search_text(text, scope) == lowercase(text));
    }
}

/// The sheet sections of two texts agree up to letter case: each is absent
/// from both, or present in both with the same lowercase form.
pub open spec fn same_sections_ignoring_case(t1: Seq<char>, t2: Seq<char>) -> bool {
    forall|j: int|
        0 <= j < 7 ==> match (
            #[trigger] section_after(t1, section_markers()[j]),
            section_after(t2, section_markers()[j]),
        ) {
            (None, None) => true,
            (Some(a), Some(b)) => lowercase(a) == lowercase(b),
            _ => false,
        }
}

proof fn lemma_section_words_ignore_case(
    t1: Seq<char>,
    t2: Seq<char>,
    n: int,
    min_len: usize,
    ignore: Seq<String>,
)
    requires
        n <= 7,
        same_sections_ignoring_case(t1, t2),
    ensures
        section_words(t1, n, min_len, ignore) == section_words(t2, n, min_len, ignore),
    decreases n,
{
    if n > 0 {
        lemma_section_words_ignore_case(t1, t2, n - 1, min_len, ignore);
        let j = n - 1;
        assert(match (
            section_after(t1, section_markers()[j]),
            section_after(t2, section_markers()[j]),
        ) {
            (None, None) => true,
            (Some(a), Some(b)) => lowercase(a) == lowercase(b),
            _ => false,
        });
    }
}

/// Law: words are compared without regard to letter case: two texts whose
/// sheet sections agree up to letter case get the same duplicate-word
/// finding.
pub proof fn lemma_duplicates_ignore_case(
    r: Findings,
    id: Seq<char>,
    severity: Seq<char>,
    actions: Seq<Action>,
    t1: Seq<char>,
    t2: Seq<char>,
    min_len: usize,
    threshold: usize,
    ignore: Seq<String>,
)
    requires
        same_sections_ignoring_case(t1, t2),
    ensures
        duplicate_effect(r, id, severity, actions, t1, min_len, threshold, ignore)
            == duplicate_effect(r, id, severity, actions, t2, min_len, threshold, ignore),
{
    lemma_section_words_ignore_case(t1, t2, 7, min_len, ignore);
}

/// The number of lines of findings.
pub open spec fn line_count(f: Findings) -> int {
    (f.errors.len() + f.warnings.len()) as int
}

/// Law: with a range given, a captured number adds a range report exactly
/// when it lies below the minimum or above the maximum; a value outside
/// the allowed values adds one report of its own. Nothing else is added.
pub proof fn lemma_range_reports(
    r: Findings,
    id: Seq<char>,
    severity: Seq<char>,
    actions: Seq<Action>,
    allowed: Seq<String>,
    range: Option<RangeCheck>,
    default: Option<u32>,
    val: Seq<char>,
)
    ensures
        line_count(capture_effect(r, id, severity, actions, allowed, range, default, val))
            == line_count(r) + (if allowed.len() > 0 && !allowed_match(allowed, val) {
            1int
        } else {
            0int
        }) + (match (range, parse_i64(val)) {
            (Some(rc), Some(num)) => if num < rc.min || num > rc.max {
                1int
            } else {
                0int
            },
            _ => 0int,
        }),
{
    let r1 = if allowed.len() > 0 && !allowed_match(allowed, val) {
        reported(r, severity, tagged(id, rule_message(actions) + " (값: "@ + val + ")"@), actions)
    } else {
        r
    };
    if allowed.len() > 0 && !allowed_match(allowed, val) {
        lemma_report_adds_one_line(
            r,
            severity,
            tagged(id, rule_message(actions) + " (값: "@ + val + ")"@),
            actions,
        );
    }
    match (range, parse_i64(val)) {
        (Some(rc), Some(num)) => {
            if num < rc.min || num > rc.max {
                lemma_report_adds_one_line(
                    r1,
                    severity,
                    tagged(
                        id,
                        "범위 초과: "@ + signed_decimal(num as int) + " (허용: "@ + signed_decimal(
                            rc.min as int,
                        ) + "~"@ + signed_decimal(rc.max as int) + default_note(default) + ")"@,
                    ),
                    actions,
                );
            }
        },
        _ => {},
    }
}

/// Law: a section's content never starts or ends with white space.
pub proof fn lemma_section_is_trimmed(text: Seq<char>, marker: Seq<char>)
    ensures
        section_after(text, marker) matches Some(c) ==> trim(c) == c,
{
    if let Some(i) = first_index(text, marker) {
        let piece = if marker.len() == 0 {
            if text.len() > 0 {
                text.take(1)
            } else {
                text
            }
        } else {
            before_first(text.skip(i + marker.len()), marker)
        };
        crate::text::lemma_trim_idempotent(before_first(piece, "## "@));
    }
}

} // verus!
