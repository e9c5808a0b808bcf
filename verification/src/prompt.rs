//! Prompts: the seven-section directing sheet, the gates a prompt must pass
//! before it is saved, versioned prompt files, and the history of versions.

use vstd::prelude::*;
use crate::rules::{
    loaded_rules, section_after, section_marker, section_markers, validate_prompt_rules,
    validation_of, RulesFile, ValidationResult,
};
use crate::text::{
    first_index,
    all_digits, chars_of, decimal, digits_value, has_prefix, has_substring, is_digit, nat_text, owned, push_char,
    starts_with, str_contains,
};

verus! {

/// The length of a prompt, in characters, above which Midjourney is warned
/// about.
pub const MIDJOURNEY_LIMIT: usize = 1000;

/// The template of an empty seven-section directing sheet.
pub const SHEET_TEMPLATE: &'static str = "## Style\n(전체 화풍/톤. 어떤 스타일로 그릴 것인가. 참고 작품, 미적 방향.)\n\n## Composition\n(구도/배치/프레이밍. 캐릭터 위치, 배경 비율, 시선 유도, 카메라 앵글.)\n\n## Character Details\n(캐릭터 외형. 얼굴, 체형, 헤어, 표정, 의상, 장비. 감정 상태.)\n\n## Environmental Elements\n(환경/배경. 장소, 오브젝트, 날씨, 시간대, 원근감.)\n\n## Action Elements\n(동작/포즈. 무엇을 하고 있는가. 물리적 움직임, 모션.)\n\n## Lighting & Atmosphere\n(조명. 광원 방향, 색온도, 그림자, 반사, 전체 분위기.)\n\n## Technical Details\n(렌더링 수준. 텍스처, 재질, 물리, 해상도, 특수 효과.)\n";

/// One saved version of a prompt.
pub struct PromptEntry {
    pub target: String,
    pub text: String,
    pub char_count: usize,
    pub within_limit: bool,
    pub memo: Option<String>,
    pub version: u32,
    pub created_at: String,
}

/// A prompt command.
#[allow(inconsistent_fields)]
pub enum PromptCmd {
    Save { target: String, text: String, memo: Option<String> },
    Show { target: String },
    Check { text: String },
    History { target: String },
    Sheet { target: String },
    Brief { target: String, file: Option<String>, text: Option<String> },
}

/// Where a directing sheet comes from.
pub enum BriefSource {
    /// Read it from this file.
    File(String),
    /// This text is the sheet.
    Text(String),
    /// No new sheet: show the saved one.
    View,
}

/// What a prompt command does.
pub enum PromptPlan {
    Save { target: String, text: String, memo: Option<String> },
    Show { target: String },
    /// Print this line.
    Print(String),
    History { target: String },
    Sheet { target: String },
    Brief { target: String, source: BriefSource },
}

// ---------------------------------------------------------------------------
// Length check
// ---------------------------------------------------------------------------

/// The line that reports a prompt's length against the Midjourney limit.
pub open spec fn check_line(text: Seq<char>) -> Seq<char> {
    let count = text.len();
    if count <= MIDJOURNEY_LIMIT {
        "✅ Midjourney 프롬프트: "@ + decimal(count as nat) + "/"@ + decimal(MIDJOURNEY_LIMIT as nat)
            + "자 — OK"@
    } else {
        "⚠️  Midjourney 프롬프트: "@ + decimal(count as nat) + "/"@ + decimal(
            MIDJOURNEY_LIMIT as nat,
        ) + "자 — "@ + decimal((count - MIDJOURNEY_LIMIT) as nat) + "자 초과!"@
    }
}

/// Reports a prompt's length (in characters) against the Midjourney limit.
pub fn check(text: &str) -> (r: String)
    ensures
        r@ == check_line(text@),
{
    let count = chars_of(text).len();
    let c = nat_text(count as u64);
    let limit = nat_text(MIDJOURNEY_LIMIT as u64);
    if count <= MIDJOURNEY_LIMIT {
        let mut m = owned("✅ Midjourney 프롬프트: ");
        m.append(c.as_str());
        m.append("/");
        m.append(limit.as_str());
        m.append("자 — OK");
        assert(m@ =~= check_line(text@));
        m
    } else {
        let mut m = owned("⚠️  Midjourney 프롬프트: ");
        m.append(c.as_str());
        m.append("/");
        m.append(limit.as_str());
        m.append("자 — ");
        let over = nat_text((count - MIDJOURNEY_LIMIT) as u64);
        m.append(over.as_str());
        m.append("자 초과!");
        assert(m@ =~= check_line(text@));
        m
    }
}

// ---------------------------------------------------------------------------
// Sections of a sheet
// ---------------------------------------------------------------------------

/// The markers among the first `n` sheet sections that `text` lacks.
pub open spec fn missing_upto(text: Seq<char>, n: int) -> Seq<Seq<char>>
    decreases n,
{
    if n <= 0 {
        Seq::empty()
    } else {
        let rest = missing_upto(text, n - 1);
        if has_substring(text, section_markers()[n - 1]) {
            rest
        } else {
            rest.push(section_markers()[n - 1])
        }
    }
}

/// The sheet section markers that `text` lacks, in sheet order.
pub open spec fn missing_of(text: Seq<char>) -> Seq<Seq<char>> {
    missing_upto(text, 7)
}

/// The sheet section markers that `text` lacks, in sheet order.
pub fn missing_sections(text: &str) -> (r: Vec<String>)
    ensures
        r.deep_view() == missing_of(text@),
{
    let mut out: Vec<String> = Vec::new();
    let mut i: usize = 0;
    assert(out.deep_view() =~= missing_upto(text@, 0));
    while i < 7
        invariant
            i <= 7,
            out.deep_view() == missing_upto(text@, i as int),
        decreases 7 - i,
    {
        let m = section_marker(i);
        if !str_contains(text, m) {
            let ghost before = out.deep_view();
            out.push(owned(m));
            assert(out.deep_view() =~= before.push(section_markers()[i as int]));
        }
        i = i + 1;
    }
    out
}

/// A section counts as filled when its marker occurs and its content is
/// neither empty nor a `(` placeholder.
pub open spec fn section_filled(content: Seq<char>, marker: Seq<char>) -> bool {
    has_substring(content, marker) && match section_after(content, marker) {
        Some(c) => c.len() > 0 && c[0] != '(',
        None => false,
    }
}

/// Whether the section at `marker` of a sheet is filled.
pub fn is_section_filled(content: &str, marker: &str) -> (r: bool)
    ensures
        r == section_filled(content@, marker@),
{
    if !str_contains(content, marker) {
        return false;
    }
    match crate::rules::extract_section(content, marker) {
        Some(c) => {
            let cc = chars_of(c.as_str());
            cc.len() > 0 && cc[0] != '('
        },
        None => false,
    }
}

/// Law: a section is filled exactly when it is found and its content is not
/// empty and does not begin with `(`; a `(` later in the content does not
/// matter, and an empty or `(`-led section is never filled.
pub proof fn lemma_filled_means_written(content: Seq<char>, marker: Seq<char>)
    ensures
        section_filled(content, marker) <==> (section_after(content, marker) matches Some(c)
            && c.len() > 0 && c[0] != '('),
        forall|c: Seq<char>, k: int|
            section_after(content, marker) == Some(c) && 0 < k < c.len() && c[0] != '(' && #[trigger] c[k]
                == '(' ==> section_filled(content, marker),
{
    if let Some(i) = first_index(content, marker) {
        assert(has_substring(content, marker));
    }
}

/// Law: the status line of each sheet section is `✅` exactly when that
/// section is filled, and names the section's marker.
pub proof fn lemma_status_line_marks(content: Seq<char>, i: int)
    requires
        0 <= i < 7,
    ensures
        status_upto(content, 7).len() == 7,
        status_upto(content, 7)[i] == (if section_filled(content, section_markers()[i]) {
            "  ✅ "@
        } else {
            "  ⬜ "@
        }) + section_markers()[i],
{
    lemma_status_prefix(content, 7, i);
}

/// Each earlier line stays as more sections are looked at.
proof fn lemma_status_prefix(content: Seq<char>, n: int, i: int)
    requires
        0 <= i < n,
    ensures
        status_upto(content, n).len() == n,
        status_upto(content, n)[i] == (if section_filled(content, section_markers()[i]) {
            "  ✅ "@
        } else {
            "  ⬜ "@
        }) + section_markers()[i],
    decreases n,
{
    lemma_status_len(content, n);
    if i < n - 1 {
        lemma_status_prefix(content, n - 1, i);
    }
}

proof fn lemma_status_len(content: Seq<char>, n: int)
    requires
        0 <= n,
    ensures
        status_upto(content, n).len() == n,
    decreases n,
{
    if n > 0 {
        lemma_status_len(content, n - 1);
    }
}

/// The status lines of the seven sections of a sheet for the first `n`.
pub open spec fn status_upto(content: Seq<char>, n: int) -> Seq<Seq<char>>
    decreases n,
{
    if n <= 0 {
        Seq::empty()
    } else {
        let m = section_markers()[n - 1];
        status_upto(content, n - 1).push(
            (if section_filled(content, m) {
                "  ✅ "@
            } else {
                "  ⬜ "@
            }) + m,
        )
    }
}

/// One line per sheet section: `✅` when filled, `⬜` otherwise.
pub fn sheet_status_lines(content: &str) -> (r: Vec<String>)
    ensures
        r.deep_view() == status_upto(content@, 7),
{
    let mut out: Vec<String> = Vec::new();
    let mut i: usize = 0;
    assert(out.deep_view() =~= status_upto(content@, 0));
    while i < 7
        invariant
            i <= 7,
            out.deep_view() == status_upto(content@, i as int),
        decreases 7 - i,
    {
        let m = section_marker(i);
        let mut line = if is_section_filled(content, m) {
            owned("  ✅ ")
        } else {
            owned("  ⬜ ")
        };
        line.append(m);
        let ghost before = out.deep_view();
        out.push(line);
        assert(out.deep_view() =~= status_upto(content@, i + 1));
        i = i + 1;
    }
    out
}

// ---------------------------------------------------------------------------
// Saving
// ---------------------------------------------------------------------------

/// Why a prompt was not saved, or the rule check that let it through.
pub enum SaveOutcome {
    /// The project has no style prefix.
    NoStylePrefix,
    /// The prompt lacks these sheet sections.
    MissingSections(Vec<String>),
    /// The rules found errors.
    RuleErrors(ValidationResult),
    /// The prompt may be saved; this is its rule check.
    Accepted(ValidationResult),
}

/// Decides whether a prompt may be saved, in the order of the gates: the
/// project must have a style prefix (when its metadata could be read,
/// `style_prefix` is `Some`), the text must hold all seven sheet sections,
/// and the rules must find no error.
pub fn prepare_save(style_prefix: &Option<String>, text: &str, rules: &Option<RulesFile>) -> (r:
    SaveOutcome)
    ensures
        match r {
            SaveOutcome::NoStylePrefix => style_prefix matches Some(p) && p@.len() == 0,
            SaveOutcome::MissingSections(m) => !(style_prefix matches Some(p) && p@.len() == 0)
                && m.deep_view() == missing_of(text@) && m.deep_view().len() > 0,
            SaveOutcome::RuleErrors(v) => !(style_prefix matches Some(p) && p@.len() == 0)
                && missing_of(text@).len() == 0 && v@ == validation_of(loaded_rules(*rules), text@)
                && v@.errors.len() > 0,
            SaveOutcome::Accepted(v) => !(style_prefix matches Some(p) && p@.len() == 0)
                && missing_of(text@).len() == 0 && v@ == validation_of(loaded_rules(*rules), text@)
                && v@.errors.len() == 0,
        },
{
    if let Some(p) = style_prefix {
        if p.as_str().is_empty() {
            return SaveOutcome::NoStylePrefix;
        }
    }
    let missing = missing_sections(text);
    if missing.len() > 0 {
        return SaveOutcome::MissingSections(missing);
    }
    let v = validate_prompt_rules(rules, text);
    if v.errors.len() > 0 {
        SaveOutcome::RuleErrors(v)
    } else {
        SaveOutcome::Accepted(v)
    }
}

/// `target_v`, the beginning of the names of a target's version files.
pub open spec fn version_prefix(target: Seq<char>) -> Seq<char> {
    target + "_v"@
}

/// `d` padded with zeros to at least three digits (as `{:03}` writes).
pub open spec fn pad3(d: Seq<char>) -> Seq<char> {
    if d.len() == 1 {
        "00"@ + d
    } else if d.len() == 2 {
        "0"@ + d
    } else {
        d
    }
}

/// The name of a prompt version file: `target_v001.json` and so on.
pub open spec fn prompt_file(target: Seq<char>, version: u32) -> Seq<char> {
    target + "_v"@ + pad3(decimal(version as nat)) + ".json"@
}

/// The name of the file of version `version` of `target`.
pub fn prompt_file_name(target: &str, version: u32) -> (r: String)
    ensures
        r@ == prompt_file(target@, version),
{
    let d = nat_text(version as u64);
    let dc = chars_of(d.as_str());
    let mut r = owned(target);
    r.append("_v");
    if dc.len() == 1 {
        r.append("00");
    } else if dc.len() == 2 {
        r.append("0");
    }
    r.append(d.as_str());
    r.append(".json");
    assert(r@ =~= prompt_file(target@, version));
    r
}

/// A new prompt version; its length is counted in characters.
pub fn new_entry(
    target: &str,
    text: &str,
    memo: Option<String>,
    version: u32,
    created_at: String,
) -> (r: PromptEntry)
    ensures
        r.target@ == target@,
        r.text@ == text@,
        r.char_count == text@.len(),
        r.within_limit == (text@.len() <= MIDJOURNEY_LIMIT),
        r.memo == memo,
        r.version == version,
        r.created_at == created_at,
{
    let char_count = chars_of(text).len();
    PromptEntry {
        target: owned(target),
        text: owned(text),
        char_count,
        within_limit: char_count <= MIDJOURNEY_LIMIT,
        memo,
        version,
        created_at,
    }
}

// ---------------------------------------------------------------------------
// Versions
// ---------------------------------------------------------------------------

/// A file name of a version of `target`: `target_v`, then one or more
/// ASCII digits, then `.json`.
pub open spec fn version_file(name: Seq<char>, target: Seq<char>) -> bool {
    &&& has_prefix(name, version_prefix(target))
    &&& version_prefix(target).len() + 1 + ".json"@.len() <= name.len()
    &&& name.skip(name.len() - ".json"@.len()) == ".json"@
    &&& all_digits(version_digits(name, target))
}

/// The digits of a version file name: what lies between `target_v` and
/// `.json`.
pub open spec fn version_digits(name: Seq<char>, target: Seq<char>) -> Seq<char> {
    name.subrange(version_prefix(target).len() as int, name.len() - ".json"@.len())
}

/// The version number a version file name carries.
pub open spec fn file_version(name: Seq<char>, target: Seq<char>) -> nat {
    digits_value(version_digits(name, target))
}

/// Whether `name` is the file of a version of `target`.
pub fn is_version_file(name: &str, target: &str) -> (r: bool)
    ensures
        r == version_file(name@, target@),
{
    let mut prefix = owned(target);
    prefix.append("_v");
    let nc = chars_of(name);
    let pc = chars_of(prefix.as_str());
    let sc = chars_of(".json");
    if !starts_with(&nc, &pc) {
        return false;
    }
    if nc.len() - pc.len() <= sc.len() {
        return false;
    }
    let end = nc.len() - sc.len();
    let suffix = crate::text::matches_at_exec(&nc, &sc, end);
    assert(nc@.subrange(end as int, end + sc@.len()) =~= nc@.skip(end as int));
    if !suffix {
        return false;
    }
    let ghost d = version_digits(name@, target@);
    let mut j = pc.len();
    while j < end
        invariant
            pc.len() <= j <= end,
            end == nc@.len() - ".json"@.len(),
            pc@ == version_prefix(target@),
            nc@ == name@,
            d == nc@.subrange(pc.len() as int, end as int),
            forall|t: int| 0 <= t < j - pc.len() ==> is_digit(#[trigger] d[t]),
        decreases end - j,
    {
        assert(d[j - pc.len()] == nc[j as int]);
        if nc[j] < '0' || nc[j] > '9' {
            return false;
        }
        j = j + 1;
    }
    true
}

/// The value of the digits `d[from..to]` when it is below `u32::MAX`,
/// `None` when it is not.
fn capped_value(d: &Vec<char>, from: usize, to: usize) -> (r: Option<u32>)
    requires
        from <= to <= d.len(),
        all_digits(d@.subrange(from as int, to as int)),
    ensures
        match r {
            Some(v) => v == digits_value(d@.subrange(from as int, to as int)) && v < u32::MAX,
            None => digits_value(d@.subrange(from as int, to as int)) >= u32::MAX,
        },
{
    let ghost s = d@.subrange(from as int, to as int);
    let mut acc: u64 = 0;
    let mut i = from;
    assert(s.take(0) =~= Seq::<char>::empty());
    while i < to
        invariant
            from <= i <= to <= d.len(),
            s == d@.subrange(from as int, to as int),
            all_digits(s),
            acc < u32::MAX,
            acc as nat == digits_value(s.take(i - from)),
        decreases to - i,
    {
        let c = d[i];
        assert(s[i - from] == c);
        assert(is_digit(s[i - from]));
        let dv: u64 = (c as u64) - ('0' as u64);
        assert(s.take(i - from + 1).drop_last() =~= s.take(i - from));
        assert(s.take(i - from + 1).last() == c);
        let next = acc * 10 + dv;
        if next >= 0xffff_ffff {
            proof {
                crate::text::lemma_digits_value_monotone(s, i - from + 1, s.len() as int);
                assert(s.take(s.len() as int) =~= s);
            }
            return None;
        }
        acc = next;
        i = i + 1;
    }
    assert(s.take(to - from) =~= s);
    Some(acc as u32)
}

/// The version number that the file name `name` of a version of `target`
/// carries, when it is below `u32::MAX`.
fn version_of_file(name: &str, target: &str) -> (r: Option<u32>)
    requires
        version_file(name@, target@),
    ensures
        match r {
            Some(v) => v == file_version(name@, target@) && v < u32::MAX,
            None => file_version(name@, target@) >= u32::MAX,
        },
{
    let mut prefix = owned(target);
    prefix.append("_v");
    let nc = chars_of(name);
    let pc = chars_of(prefix.as_str());
    let sc = chars_of(".json");
    capped_value(&nc, pc.len(), nc.len() - sc.len())
}

/// The highest version among the version files of `target` in `names`, 0
/// when there is none.
pub open spec fn highest_version(names: Seq<String>, target: Seq<char>) -> nat
    decreases names.len(),
{
    if names.len() == 0 {
        0
    } else {
        let h = highest_version(names.drop_last(), target);
        let n = names.last()@;
        if version_file(n, target) && file_version(n, target) > h {
            file_version(n, target)
        } else {
            h
        }
    }
}

/// Every version file in `names` carries at most the highest version, and
/// the highest version is 0 or carried by one of them.
pub proof fn lemma_highest_version_bounds(names: Seq<String>, target: Seq<char>)
    ensures
        forall|i: int|
            0 <= i < names.len() && version_file(#[trigger] names[i]@, target) ==> file_version(
                names[i]@,
                target,
            ) <= highest_version(names, target),
        highest_version(names, target) == 0 || exists|i: int|
            0 <= i < names.len() && version_file(#[trigger] names[i]@, target) && file_version(
                names[i]@,
                target,
            ) == highest_version(names, target),
    decreases names.len(),
{
    if names.len() > 0 {
        let front = names.drop_last();
        lemma_highest_version_bounds(front, target);
        assert forall|i: int|
            0 <= i < names.len() && version_file(#[trigger] names[i]@, target) implies file_version(
            names[i]@,
            target,
        ) <= highest_version(names, target) by {
            if i < names.len() - 1 {
                assert(names[i] == front[i]);
            }
        }
        if highest_version(names, target) != 0 && highest_version(names, target) == highest_version(
            front,
            target,
        ) {
            let i = choose|i: int|
                0 <= i < front.len() && version_file(#[trigger] front[i]@, target) && file_version(
                    front[i]@,
                    target,
                ) == highest_version(front, target);
            assert(names[i] == front[i]);
        }
    }
}

/// The version number of a new prompt for `target`: one more than the
/// highest version among the version files of `target` in the prompt
/// folder (1 when there is none). `None` when that number does not fit in
/// a `u32`.
pub fn next_version(names: &Vec<String>, target: &str) -> (r: Option<u32>)
    ensures
        match r {
            Some(v) => v == highest_version(names@, target@) + 1,
            None => highest_version(names@, target@) >= u32::MAX,
        },
{
    let mut h: u32 = 0;
    let mut i: usize = 0;
    while i < names.len()
        invariant
            i <= names.len(),
            h < u32::MAX,
            h == highest_version(names@.take(i as int), target@),
        decreases names.len() - i,
    {
        assert(names@.take(i + 1).drop_last() =~= names@.take(i as int));
        assert(names@.take(i + 1).last() == names@[i as int]);
        if is_version_file(names[i].as_str(), target) {
            match version_of_file(names[i].as_str(), target) {
                Some(v) => {
                    if v > h {
                        h = v;
                    }
                },
                None => {
                    proof {
                        lemma_highest_version_bounds(names@.take(i + 1), target@);
                        assert(names@.take(i + 1)[i as int] == names@[i as int]);
                        lemma_highest_version_prefix(names@, target@, i + 1);
                    }
                    return None;
                },
            }
        }
        i = i + 1;
    }
    assert(names@.take(names.len() as int) =~= names@);
    Some(h + 1)
}

/// The highest version of a prefix of `names` is at most that of `names`.
proof fn lemma_highest_version_prefix(names: Seq<String>, target: Seq<char>, k: int)
    requires
        0 <= k <= names.len(),
    ensures
        highest_version(names.take(k), target) <= highest_version(names, target),
    decreases names.len() - k,
{
    if k < names.len() {
        lemma_highest_version_prefix(names, target, k + 1);
        assert(names.take(k + 1).drop_last() =~= names.take(k));
    } else {
        assert(names.take(k) =~= names);
    }
}

/// Leading zeros do not change the value of digits.
proof fn lemma_leading_zero(d: Seq<char>)
    ensures
        digits_value(seq!['0'] + d) == digits_value(d),
        all_digits(d) ==> all_digits(seq!['0'] + d),
    decreases d.len(),
{
    let z = seq!['0'] + d;
    if d.len() == 0 {
        assert(z.drop_last() =~= Seq::<char>::empty());
        assert(z.last() == '0');
        assert(digits_value(z) == digits_value(z.drop_last()) * 10 + (z.last() as nat - '0' as nat) as nat);
    } else {
        lemma_leading_zero(d.drop_last());
        assert(z.drop_last() =~= seq!['0'] + d.drop_last());
        assert(z.last() == d.last());
        assert(digits_value(z) == digits_value(z.drop_last()) * 10 + (z.last() as nat - '0' as nat) as nat);
    }
    if all_digits(d) {
        assert forall|i: int| 0 <= i < z.len() implies is_digit(#[trigger] z[i]) by {
            if i > 0 {
                assert(z[i] == d[i - 1]);
            }
        }
    }
}

/// The file of version `v` of `target` is a version file of `target` that
/// carries the version `v`.
pub proof fn lemma_prompt_file_version(target: Seq<char>, v: u32)
    ensures
        version_file(prompt_file(target, v), target),
        file_version(prompt_file(target, v), target) == v,
{
    reveal_strlit("_v");
    reveal_strlit(".json");
    reveal_strlit("0");
    reveal_strlit("00");
    let d = decimal(v as nat);
    crate::text::lemma_decimal_digits(v as nat);
    let p = pad3(d);
    lemma_leading_zero(d);
    lemma_leading_zero(seq!['0'] + d);
    assert("0"@ =~= seq!['0']);
    assert("00"@ + d =~= seq!['0'] + (seq!['0'] + d));
    assert(all_digits(p) && digits_value(p) == v);
    let name = prompt_file(target, v);
    assert(name =~= version_prefix(target) + p + ".json"@);
    assert(name.take(version_prefix(target).len() as int) =~= version_prefix(target));
    assert(name.skip(name.len() - ".json"@.len()) =~= ".json"@);
    assert(version_digits(name, target) =~= p);
}

/// Law: a new version never takes the name of a file already there: the
/// file of any version above the highest one is not among `names`.
pub proof fn lemma_new_version_is_free(names: Seq<String>, target: Seq<char>, v: u32)
    requires
        v > highest_version(names, target),
    ensures
        forall|i: int| 0 <= i < names.len() ==> #[trigger] names[i]@ != prompt_file(target, v),
{
    lemma_highest_version_bounds(names, target);
    lemma_prompt_file_version(target, v);
}

/// Law: when the version files of `target` are exactly those of versions
/// 1 to `n`, the highest version is `n`, so the next save is version
/// `n + 1`.
pub proof fn lemma_sequential_versions(names: Seq<String>, target: Seq<char>, n: u32)
    requires
        forall|i: int|
            0 <= i < names.len() && version_file(#[trigger] names[i]@, target) ==> exists|k: u32|
                1 <= k <= n && names[i]@ == prompt_file(target, k),
        forall|k: u32|
            #![trigger prompt_file(target, k)]
            1 <= k <= n ==> exists|i: int|
                0 <= i < names.len() && #[trigger] names[i]@ == prompt_file(target, k),
    ensures
        highest_version(names, target) == n,
{
    lemma_highest_version_bounds(names, target);
    if highest_version(names, target) != 0 {
        let i = choose|i: int|
            0 <= i < names.len() && version_file(#[trigger] names[i]@, target) && file_version(
                names[i]@,
                target,
            ) == highest_version(names, target);
        let k = choose|k: u32| 1 <= k <= n && names[i]@ == prompt_file(target, k);
        lemma_prompt_file_version(target, k);
    }
    if n >= 1 {
        let i = choose|i: int| 0 <= i < names.len() && #[trigger] names[i]@ == prompt_file(target, n);
        lemma_prompt_file_version(target, n);
    }
}

/// Law: a file name is a version file of at most one target, so the
/// versions of one target never include another target's files (`hero`
/// does not claim `hero_villain_v001.json`).
pub proof fn lemma_version_file_one_target(name: Seq<char>, t1: Seq<char>, t2: Seq<char>)
    requires
        version_file(name, t1),
        version_file(name, t2),
    ensures
        t1 == t2,
{
    if t1.len() < t2.len() {
        lemma_no_shorter_target(name, t1, t2);
    } else if t2.len() < t1.len() {
        lemma_no_shorter_target(name, t2, t1);
    } else {
        assert(name.take(version_prefix(t1).len() as int) == version_prefix(t1));
        assert(name.take(version_prefix(t2).len() as int) == version_prefix(t2));
        assert(t1 =~= version_prefix(t1).take(t1.len() as int));
        assert(t2 =~= version_prefix(t2).take(t2.len() as int));
    }
}

/// A target shorter than another cannot share a version file with it.
proof fn lemma_no_shorter_target(name: Seq<char>, t1: Seq<char>, t2: Seq<char>)
    requires
        version_file(name, t1),
        version_file(name, t2),
    ensures
        t2.len() <= t1.len(),
{
    reveal_strlit("_v");
    reveal_strlit(".json");
    if t1.len() < t2.len() {
        let a = t1.len() as int;
        let b = t2.len() as int;
        let p2 = version_prefix(t2);
        assert(name.take(p2.len() as int) == p2);
        assert(name[b] == name.take(p2.len() as int)[b]);
        assert(p2[b] == '_');
        let p1 = version_prefix(t1);
        assert(name.take(p1.len() as int) == p1);
        if b == a + 1 {
            assert(name[a + 1] == name.take(p1.len() as int)[a + 1]);
            assert(p1[a + 1] == 'v');
        } else {
            let d = version_digits(name, t1);
            assert(d[b - a - 2] == name[b]);
            assert(is_digit(d[b - a - 2]));
        }
    }
}

/// The first of the entries with the highest version.
pub fn latest_index(entries: &Vec<PromptEntry>) -> (r: Option<usize>)
    ensures
        match r {
            None => entries.len() == 0,
            Some(i) => i < entries.len() && (forall|j: int|
                0 <= j < entries.len() ==> entries@[j].version <= entries@[i as int].version)
                && (forall|j: int|
                0 <= j < i ==> entries@[j].version < entries@[i as int].version),
        },
{
    if entries.len() == 0 {
        return None;
    }
    let mut best: usize = 0;
    let mut i: usize = 1;
    while i < entries.len()
        invariant
            1 <= i <= entries.len(),
            best < i,
            forall|j: int| 0 <= j < i ==> entries@[j].version <= entries@[best as int].version,
            forall|j: int| 0 <= j < best ==> entries@[j].version < entries@[best as int].version,
        decreases entries.len() - i,
    {
        if entries[i].version > entries[best].version {
            best = i;
        }
        i = i + 1;
    }
    Some(best)
}

/// Where an entry of version `v` goes in a list sorted by version: after
/// every entry whose version is at most `v`.
pub open spec fn insert_pos(t: Seq<PromptEntry>, v: u32) -> int
    decreases t.len(),
{
    if t.len() == 0 {
        0
    } else if t.last().version <= v {
        t.len() as int
    } else {
        insert_pos(t.drop_last(), v)
    }
}

/// The entries in order of version, entries of equal version in their
/// original order.
pub open spec fn sorted_by_version(s: Seq<PromptEntry>) -> Seq<PromptEntry>
    decreases s.len(),
{
    if s.len() == 0 {
        Seq::empty()
    } else {
        let t = sorted_by_version(s.drop_last());
        t.insert(insert_pos(t, s.last().version), s.last())
    }
}

/// The entries are in order of version.
pub open spec fn version_sorted(s: Seq<PromptEntry>) -> bool {
    forall|i: int, j: int| 0 <= i <= j < s.len() ==> s[i].version <= s[j].version
}

/// The insertion point lies within the list.
pub proof fn lemma_insert_pos_bounds(t: Seq<PromptEntry>, v: u32)
    ensures
        0 <= insert_pos(t, v) <= t.len(),
    decreases t.len(),
{
    if t.len() > 0 {
        lemma_insert_pos_bounds(t.drop_last(), v);
    }
}

/// Sorting keeps the number of entries.
pub proof fn lemma_sorted_len(s: Seq<PromptEntry>)
    ensures
        sorted_by_version(s).len() == s.len(),
    decreases s.len(),
{
    if s.len() > 0 {
        lemma_sorted_len(s.drop_last());
        lemma_insert_pos_bounds(sorted_by_version(s.drop_last()), s.last().version);
    }
}

/// Where `v` is inserted into `t` by scanning from the end.
fn find_insert_pos(t: &Vec<PromptEntry>, v: u32) -> (r: usize)
    ensures
        r == insert_pos(t@, v),
{
    let mut j = t.len();
    assert(t@.take(j as int) =~= t@);
    while j > 0 && t[j - 1].version > v
        invariant
            j <= t.len(),
            insert_pos(t@, v) == insert_pos(t@.take(j as int), v),
        decreases j,
    {
        assert(t@.take(j as int).drop_last() =~= t@.take(j - 1));
        j = j - 1;
    }
    proof {
        if j > 0 {
            assert(t@.take(j as int).last() == t@[j - 1]);
        }
    }
    j
}

/// The entries in order of version; entries of equal version keep their
/// order.
pub fn sort_by_version(entries: Vec<PromptEntry>) -> (r: Vec<PromptEntry>)
    ensures
        r@ == sorted_by_version(entries@),
{
    let ghost orig = entries@;
    let mut rest = entries;
    let total = rest.len();
    assert(orig.len() == total);
    let mut out: Vec<PromptEntry> = Vec::new();
    let mut k: usize = 0;
    assert(orig.take(0) =~= Seq::<PromptEntry>::empty());
    while rest.len() > 0
        invariant
            k <= orig.len(),
            k + rest.len() == orig.len(),
            orig.len() <= usize::MAX,
            rest@ == orig.skip(k as int),
            out@ == sorted_by_version(orig.take(k as int)),
        decreases rest.len(),
    {
        let e = rest.remove(0);
        assert(orig.take(k + 1).drop_last() =~= orig.take(k as int));
        assert(orig.take(k + 1).last() == e);
        let pos = find_insert_pos(&out, e.version);
        proof {
            lemma_insert_pos_bounds(out@, e.version);
        }
        out.insert(pos, e);
        k = k + 1;
        assert(rest@ =~= orig.skip(k as int));
    }
    assert(orig.take(k as int) =~= orig);
    out
}

/// Inserting after every entry of at most the same version keeps a sorted
/// list sorted.
pub proof fn lemma_insert_keeps_sorted(t: Seq<PromptEntry>, e: PromptEntry)
    requires
        version_sorted(t),
    ensures
        version_sorted(t.insert(insert_pos(t, e.version), e)),
    decreases t.len(),
{
    lemma_insert_pos_bounds(t, e.version);
    let p = insert_pos(t, e.version);
    let u = t.insert(p, e);
    if t.len() == 0 {
    } else if t.last().version <= e.version {
        assert(u =~= t.push(e));
    } else {
        let t0 = t.drop_last();
        lemma_insert_keeps_sorted(t0, e);
        lemma_insert_pos_bounds(t0, e.version);
        assert(p == insert_pos(t0, e.version));
        let u0 = t0.insert(p, e);
        assert(u =~= u0.push(t.last()));
        assert forall|i: int, j: int| 0 <= i <= j < u.len() implies u[i].version
            <= u[j].version by {
            if j == u.len() - 1 {
                if i < u.len() - 1 {
                    if i == p {
                        assert(u[i] == e);
                    } else if i < p {
                        assert(u[i] == t[i]);
                    } else {
                        assert(u[i] == t[i - 1]);
                    }
                }
            } else {
                assert(u[i] == u0[i]);
                assert(u[j] == u0[j]);
            }
        }
    }
}

/// Law: the history is in order of version.
pub proof fn lemma_history_sorted(s: Seq<PromptEntry>)
    ensures
        version_sorted(sorted_by_version(s)),
    decreases s.len(),
{
    if s.len() > 0 {
        lemma_history_sorted(s.drop_last());
        lemma_insert_keeps_sorted(sorted_by_version(s.drop_last()), s.last());
    }
}

/// Law: the history holds the same entries as before, each as often.
pub proof fn lemma_history_permutation(s: Seq<PromptEntry>)
    ensures
        sorted_by_version(s).to_multiset() == s.to_multiset(),
    decreases s.len(),
{
    broadcast use vstd::seq_lib::group_seq_properties;

    if s.len() > 0 {
        lemma_history_permutation(s.drop_last());
        let t = sorted_by_version(s.drop_last());
        lemma_insert_pos_bounds(t, s.last().version);
        vstd::seq_lib::lemma_seq_union_to_multiset_commutative(s.drop_last(), seq![s.last()]);
        assert(s =~= s.drop_last() + seq![s.last()]);
        assert(s.drop_last().push(s.last()) =~= s);
    }
}

/// The line of one version in the history: status, version, length, memo
/// and time.
pub open spec fn history_line_of(e: PromptEntry) -> Seq<char> {
    "  "@ + (if e.within_limit {
        "✅"@
    } else {
        "⚠️"@
    }) + " v"@ + decimal(e.version as nat) + " | "@ + decimal(e.char_count as nat) + "자"@
        + (match e.memo {
        Some(m) => " — "@ + m@,
        None => Seq::empty(),
    }) + " | "@ + e.created_at@
}

/// The line of one version in the history.
pub fn history_line(e: &PromptEntry) -> (r: String)
    ensures
        r@ == history_line_of(*e),
{
    let mut r = owned("  ");
    if e.within_limit {
        r.append("✅");
    } else {
        r.append("⚠️");
    }
    r.append(" v");
    let v = nat_text(e.version as u64);
    r.append(v.as_str());
    r.append(" | ");
    let c = nat_text(e.char_count as u64);
    r.append(c.as_str());
    r.append("자");
    match &e.memo {
        Some(m) => {
            r.append(" — ");
            r.append(m.as_str());
        },
        None => {},
    }
    r.append(" | ");
    r.append(e.created_at.as_str());
    assert(r@ =~= history_line_of(*e));
    r
}

// ---------------------------------------------------------------------------
// Commands
// ---------------------------------------------------------------------------

/// What a prompt command does: `check` is answered at once; a brief takes
/// its sheet from the file when one is given, else from the text, else
/// shows the saved sheet.
pub fn run(cmd: PromptCmd) -> (r: PromptPlan)
    ensures
        match (cmd, r) {
            (PromptCmd::Save { target, text, memo }, PromptPlan::Save { target: t, text: x, memo: m }) =>
                t == target && x == text && m == memo,
            (PromptCmd::Show { target }, PromptPlan::Show { target: t }) => t == target,
            (PromptCmd::Check { text }, PromptPlan::Print(line)) => line@ == check_line(text@),
            (PromptCmd::History { target }, PromptPlan::History { target: t }) => t == target,
            (PromptCmd::Sheet { target }, PromptPlan::Sheet { target: t }) => t == target,
            (PromptCmd::Brief { target, file, text }, PromptPlan::Brief { target: t, source }) =>
                t == target && match (file, text) {
                    (Some(f), _) => source == BriefSource::File(f),
                    (None, Some(x)) => source == BriefSource::Text(x),
                    (None, None) => source == BriefSource::View,
                },
            _ => false,
        },
{
    match cmd {
        PromptCmd::Save { target, text, memo } => PromptPlan::Save { target, text, memo },
        PromptCmd::Show { target } => PromptPlan::Show { target },
        PromptCmd::Check { text } => PromptPlan::Print(check(text.as_str())),
        PromptCmd::History { target } => PromptPlan::History { target },
        PromptCmd::Sheet { target } => PromptPlan::Sheet { target },
        PromptCmd::Brief { target, file, text } => {
            let source = match (file, text) {
                (Some(f), _) => BriefSource::File(f),
                (None, Some(x)) => BriefSource::Text(x),
                (None, None) => BriefSource::View,
            };
            PromptPlan::Brief { target, source }
        },
    }
}

} // verus!
