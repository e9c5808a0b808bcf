//! Project metadata and the lines that describe a project.

use vstd::prelude::*;
use crate::text::{chars_of, decimal, nat_text, owned, same_text, text_le, text_le_exec};

verus! {

/// What is known of a project.
pub struct ProjectMeta {
    pub name: String,
    pub style: String,
    pub project_type: String,
    /// The fixed style prefix of every prompt; empty until set.
    pub style_prefix: String,
    pub created_at: String,
}

/// A new project: style `미정` and type `자유` unless given, no style prefix.
pub fn new_project(
    name: String,
    style: Option<String>,
    project_type: Option<String>,
    created_at: String,
) -> (r: ProjectMeta)
    ensures
        r.name == name,
        r.style@ == (match style {
            Some(s) => s@,
            None => "미정"@,
        }),
        r.project_type@ == (match project_type {
            Some(t) => t@,
            None => "자유"@,
        }),
        r.style_prefix@.len() == 0,
        r.created_at == created_at,
{
    let style = match style {
        Some(s) => s,
        None => owned("미정"),
    };
    let project_type = match project_type {
        Some(t) => t,
        None => owned("자유"),
    };
    ProjectMeta { name, style, project_type, style_prefix: String::new(), created_at }
}

/// Sets the style prefix of a project, keeping everything else.
pub fn set_style_prefix(meta: &mut ProjectMeta, prefix: String)
    ensures
        final(meta).style_prefix == prefix,
        final(meta).name == old(meta).name,
        final(meta).style == old(meta).style,
        final(meta).project_type == old(meta).project_type,
        final(meta).created_at == old(meta).created_at,
{
    meta.style_prefix = prefix;
}

/// The line of a project in the project list, marked when it is current.
pub open spec fn project_line_of(name: Seq<char>, meta: ProjectMeta, current: Option<Seq<char>>) -> Seq<char> {
    "  "@ + name + " — "@ + meta.project_type@ + " / "@ + meta.style@ + if current == Some(name) {
        " ◀ current"@
    } else {
        Seq::empty()
    }
}

/// The line of a project in the project list.
pub fn project_line(name: &str, meta: &ProjectMeta, current: &Option<String>) -> (r: String)
    ensures
        r@ == project_line_of(name@, *meta, current.deep_view()),
{
    let mut r = owned("  ");
    r.append(name);
    r.append(" — ");
    r.append(meta.project_type.as_str());
    r.append(" / ");
    r.append(meta.style.as_str());
    let is_current = match current {
        Some(c) => same_text(c.as_str(), name),
        None => false,
    };
    if is_current {
        r.append(" ◀ current");
    }
    r
}

/// The line of one asset kind in a project's status: `✅` when it has assets.
pub open spec fn asset_count_line_of(label: Seq<char>, count: usize) -> Seq<char> {
    "  "@ + (if count > 0 {
        "✅"@
    } else {
        "⬜"@
    }) + " "@ + label + " — "@ + decimal(count as nat) + "개"@
}

/// The line of one asset kind in a project's status.
pub fn asset_count_line(label: &str, count: usize) -> (r: String)
    ensures
        r@ == asset_count_line_of(label@, count),
{
    let mut r = owned("  ");
    if count > 0 {
        r.append("✅");
    } else {
        r.append("⬜");
    }
    r.append(" ");
    r.append(label);
    r.append(" — ");
    let n = nat_text(count as u64);
    r.append(n.as_str());
    r.append("개");
    r
}

/// The line about the style prefix in a project's status.
pub open spec fn prefix_line_of(prefix: Seq<char>) -> Seq<char> {
    if prefix.len() > 0 {
        "🎨 스타일 접두사: "@ + prefix
    } else {
        "⚠️  스타일 접두사 미설정"@
    }
}

/// The line about the style prefix in a project's status.
pub fn prefix_line(prefix: &str) -> (r: String)
    ensures
        r@ == prefix_line_of(prefix@),
{
    if prefix.is_empty() {
        owned("⚠️  스타일 접두사 미설정")
    } else {
        let mut r = owned("🎨 스타일 접두사: ");
        r.append(prefix);
        r
    }
}

/// Where a name goes among names sorted in code point order: after every
/// name that comes before it or equals it.
pub open spec fn name_pos(t: Seq<String>, n: Seq<char>) -> int
    decreases t.len(),
{
    if t.len() == 0 {
        0
    } else if text_le(t.last()@, n) {
        t.len() as int
    } else {
        name_pos(t.drop_last(), n)
    }
}

/// The names in code point order (the order of `String`), equal names in
/// their original order.
pub open spec fn sorted_names(s: Seq<String>) -> Seq<String>
    decreases s.len(),
{
    if s.len() == 0 {
        Seq::empty()
    } else {
        let t = sorted_names(s.drop_last());
        t.insert(name_pos(t, s.last()@), s.last())
    }
}

/// The insertion point lies within the list.
pub proof fn lemma_name_pos_bounds(t: Seq<String>, n: Seq<char>)
    ensures
        0 <= name_pos(t, n) <= t.len(),
    decreases t.len(),
{
    if t.len() > 0 {
        lemma_name_pos_bounds(t.drop_last(), n);
    }
}

/// The project names in the order the project list shows them.
pub fn sort_names(names: Vec<String>) -> (r: Vec<String>)
    ensures
        r@ == sorted_names(names@),
{
    let ghost orig = names@;
    let mut rest = names;
    let total = rest.len();
    assert(orig.len() == total);
    let mut out: Vec<String> = Vec::new();
    let mut k: usize = 0;
    assert(orig.take(0) =~= Seq::<String>::empty());
    while rest.len() > 0
        invariant
            k + rest.len() == orig.len(),
            orig.len() <= usize::MAX,
            rest@ == orig.skip(k as int),
            out@ == sorted_names(orig.take(k as int)),
        decreases rest.len(),
    {
        let e = rest.remove(0);
        assert(orig.take(k + 1).drop_last() =~= orig.take(k as int));
        assert(orig.take(k + 1).last() == e);
        let ec = chars_of(e.as_str());
        let mut j = out.len();
        assert(out@.take(j as int) =~= out@);
        while j > 0 && !text_le_exec(&chars_of(out[j - 1].as_str()), &ec)
            invariant
                j <= out.len(),
                ec@ == e@,
                name_pos(out@, e@) == name_pos(out@.take(j as int), e@),
            decreases j,
        {
            assert(out@.take(j as int).last() == out@[j - 1]);
            assert(out@.take(j as int).drop_last() =~= out@.take(j - 1));
            j = j - 1;
        }
        proof {
            if j > 0 {
                assert(out@.take(j as int).last() == out@[j - 1]);
            }
            lemma_name_pos_bounds(out@, e@);
        }
        out.insert(j, e);
        k = k + 1;
        assert(rest@ =~= orig.skip(k as int));
    }
    assert(orig.take(k as int) =~= orig);
    out
}

} // verus!
