//! Assets and their four-stage pipeline: concept, prompt ready, generated,
//! confirmed. Stages are passed one at a time, the prompt stage needs a
//! concept or keywords, and only a generated image can be confirmed.

use vstd::prelude::*;
use crate::text::{
    after_last, before_first, chars_of, decimal, last_index_of, lowercase, nat_text, owned,
    same_text, string_of_range, to_lowercase, all_ascii, ascii_lowered, find_from, matches_at,
};

verus! {

/// The stage of an asset in the pipeline.
#[derive(Clone, Copy, Debug, PartialEq, Eq, Structural)]
pub enum AssetStage {
    Concept,
    PromptReady,
    Generated,
    Confirmed,
}

/// The position of a stage in the pipeline, from 1 to 4.
pub open spec fn stage_rank(s: AssetStage) -> u8 {
    match s {
        AssetStage::Concept => 1,
        AssetStage::PromptReady => 2,
        AssetStage::Generated => 3,
        AssetStage::Confirmed => 4,
    }
}

/// The name of a stage as shown to the user.
pub open spec fn stage_label(s: AssetStage) -> Seq<char> {
    match s {
        AssetStage::Concept => "컨셉 정리"@,
        AssetStage::PromptReady => "프롬프트 생성"@,
        AssetStage::Generated => "이미지 생성"@,
        AssetStage::Confirmed => "확정"@,
    }
}

/// The stage that follows `s`; none after confirmation.
pub open spec fn stage_after(s: AssetStage) -> Option<AssetStage> {
    match s {
        AssetStage::Concept => Some(AssetStage::PromptReady),
        AssetStage::PromptReady => Some(AssetStage::Generated),
        AssetStage::Generated => Some(AssetStage::Confirmed),
        AssetStage::Confirmed => None,
    }
}

impl AssetStage {
    /// The position of the stage in the pipeline, from 1 to 4.
    pub fn index(&self) -> (r: u8)
        ensures
            r == stage_rank(*self),
    {
        match self {
            AssetStage::Concept => 1,
            AssetStage::PromptReady => 2,
            AssetStage::Generated => 3,
            AssetStage::Confirmed => 4,
        }
    }

    /// The name of the stage as shown to the user.
    pub fn label(&self) -> (r: &'static str)
        ensures
            r@ == stage_label(*self),
    {
        match self {
            AssetStage::Concept => "컨셉 정리",
            AssetStage::PromptReady => "프롬프트 생성",
            AssetStage::Generated => "이미지 생성",
            AssetStage::Confirmed => "확정",
        }
    }

    /// The stage that follows; `None` once confirmed.
    pub fn next(&self) -> (r: Option<AssetStage>)
        ensures
            r == stage_after(*self),
    {
        match self {
            AssetStage::Concept => Some(AssetStage::PromptReady),
            AssetStage::PromptReady => Some(AssetStage::Generated),
            AssetStage::Generated => Some(AssetStage::Confirmed),
            AssetStage::Confirmed => None,
        }
    }
}

impl Default for AssetStage {
    /// A new asset starts at the concept stage.
    fn default() -> (r: AssetStage)
        ensures
            r == AssetStage::Concept,
    {
        AssetStage::Concept
    }
}

/// The stages in pipeline order.
pub open spec fn all_stages() -> Seq<AssetStage> {
    seq![AssetStage::Concept, AssetStage::PromptReady, AssetStage::Generated, AssetStage::Confirmed]
}

/// Law: each stage but the last is followed by the stage one position
/// further, the last by none, and positions identify stages.
pub proof fn lemma_pipeline_order(s: AssetStage, t: AssetStage)
    ensures
        1 <= stage_rank(s) <= 4,
        stage_after(s) matches Some(n) ==> stage_rank(n) == stage_rank(s) + 1,
        stage_after(s) is None <==> s == AssetStage::Confirmed,
        stage_rank(s) == stage_rank(t) ==> s == t,
        all_stages()[stage_rank(s) - 1] == s,
{
}

/// Law: from any stage, the confirmed stage is reached by following the
/// pipeline exactly `4 - position` times, each step one position further.
pub proof fn lemma_pipeline_reaches_confirmed(s: AssetStage)
    ensures
        steps_to_confirmed(s) == 4 - stage_rank(s),
    decreases 4 - stage_rank(s),
{
    match stage_after(s) {
        Some(n) => lemma_pipeline_reaches_confirmed(n),
        None => {},
    }
}

/// The number of steps from `s` to the confirmed stage.
pub open spec fn steps_to_confirmed(s: AssetStage) -> int
    decreases 4 - stage_rank(s),
{
    match stage_after(s) {
        Some(n) => if stage_rank(n) > stage_rank(s) {
            1 + steps_to_confirmed(n)
        } else {
            0
        },
        None => 0,
    }
}

/// What is known of an asset.
pub struct AssetMeta {
    pub name: String,
    pub asset_type: String,
    pub image: Option<String>,
    pub concept: Option<String>,
    pub keywords: Option<String>,
    pub stage: AssetStage,
    pub created_at: String,
}

/// A new asset at the concept stage.
pub fn new_asset(
    name: String,
    asset_type: String,
    image: Option<String>,
    concept: Option<String>,
    keywords: Option<String>,
    created_at: String,
) -> (r: AssetMeta)
    ensures
        r.name == name,
        r.asset_type == asset_type,
        r.image == image,
        r.concept == concept,
        r.keywords == keywords,
        r.stage == AssetStage::Concept,
        r.created_at == created_at,
{
    AssetMeta { name, asset_type, image, concept, keywords, stage: AssetStage::Concept, created_at }
}

// ---------------------------------------------------------------------------
// Asset kinds
// ---------------------------------------------------------------------------

/// The folder of an asset kind, for the four known kinds.
pub open spec fn asset_dir(kind: Seq<char>) -> Option<Seq<char>> {
    if kind == "character"@ {
        Some("characters"@)
    } else if kind == "monster"@ {
        Some("monsters"@)
    } else if kind == "background"@ {
        Some("backgrounds"@)
    } else if kind == "object"@ {
        Some("objects"@)
    } else {
        None
    }
}

/// The name of an asset kind as shown to the user (the kind itself when
/// unknown).
pub open spec fn asset_label(kind: Seq<char>) -> Seq<char> {
    if kind == "character"@ {
        "캐릭터"@
    } else if kind == "monster"@ {
        "몬스터"@
    } else if kind == "background"@ {
        "배경"@
    } else if kind == "object"@ {
        "오브젝트"@
    } else {
        kind
    }
}

/// The folder of an asset kind; `None` for a kind that is not one of
/// character, monster, background and object.
pub fn type_to_dir(kind: &str) -> (r: Option<&'static str>)
    ensures
        match r {
            Some(d) => asset_dir(kind@) == Some(d@),
            None => asset_dir(kind@) is None,
        },
{
    if same_text(kind, "character") {
        Some("characters")
    } else if same_text(kind, "monster") {
        Some("monsters")
    } else if same_text(kind, "background") {
        Some("backgrounds")
    } else if same_text(kind, "object") {
        Some("objects")
    } else {
        None
    }
}

/// The name of an asset kind as shown to the user.
pub fn type_label(kind: &str) -> (r: String)
    ensures
        r@ == asset_label(kind@),
{
    if same_text(kind, "character") {
        owned("캐릭터")
    } else if same_text(kind, "monster") {
        owned("몬스터")
    } else if same_text(kind, "background") {
        owned("배경")
    } else if same_text(kind, "object") {
        owned("오브젝트")
    } else {
        owned(kind)
    }
}

/// A folder of assets and its name as shown to the user.
pub struct Shelf {
    pub dir: &'static str,
    pub label: String,
}

/// The four asset folders in listing order, with their names.
pub open spec fn all_shelves() -> Seq<(Seq<char>, Seq<char>)> {
    seq![
        ("characters"@, "캐릭터"@),
        ("monsters"@, "몬스터"@),
        ("backgrounds"@, "배경"@),
        ("objects"@, "오브젝트"@),
    ]
}

/// The mathematical content of a list of shelves.
pub open spec fn shelves_view(v: Seq<Shelf>) -> Seq<(Seq<char>, Seq<char>)> {
    Seq::new(v.len(), |i: int| (v[i].dir@, v[i].label@))
}

/// The four asset folders in listing order.
pub fn shelves() -> (r: Vec<Shelf>)
    ensures
        shelves_view(r@) == all_shelves(),
{
    let r = vec![
        Shelf { dir: "characters", label: owned("캐릭터") },
        Shelf { dir: "monsters", label: owned("몬스터") },
        Shelf { dir: "backgrounds", label: owned("배경") },
        Shelf { dir: "objects", label: owned("오브젝트") },
    ];
    assert(shelves_view(r@) =~= all_shelves());
    r
}

// ---------------------------------------------------------------------------
// Image files
// ---------------------------------------------------------------------------

/// One of the image extensions that are kept as they are.
pub open spec fn known_extension(e: Seq<char>) -> bool {
    e == "png"@ || e == "jpg"@ || e == "jpeg"@ || e == "webp"@ || e == "gif"@
}

/// The part of a URL that names its extension: after the last `.`, up to
/// the first `?`.
pub open spec fn url_extension_part(url: Seq<char>) -> Seq<char> {
    before_first(after_last(url, '.'), seq!['?'])
}

/// `e` when it is a known image extension, `png` otherwise.
pub open spec fn known_or_png(e: Seq<char>) -> Seq<char> {
    if known_extension(e) {
        e
    } else {
        "png"@
    }
}

/// The extension of an image URL: the part after the last `.`, up to a
/// `?`, lowercased, when it is a known image extension; `png` otherwise.
pub open spec fn url_extension(url: Seq<char>) -> Seq<char> {
    known_or_png(lowercase(url_extension_part(url)))
}

/// The extension of an image URL (`png` unless a known image extension is
/// given). Letter case does not matter: an ASCII extension part is compared
/// in its lowercase form.
pub fn ext_from_url(url: &str) -> (r: String)
    ensures
        r@ == url_extension(url@),
        known_extension(r@),
        all_ascii(url_extension_part(url@)) ==> r@ == known_or_png(
            ascii_lowered(url_extension_part(url@)),
        ),
{
    let u = chars_of(url);
    let start = match crate::text::last_index(&u, '.') {
        Some(i) => i + 1,
        None => 0,
    };
    let tail = string_of_range(&u, start, u.len());
    assert(tail@ == after_last(url@, '.')) by {
        assert(u@.skip(start as int) =~= u@.subrange(start as int, u@.len() as int));
    }
    let tc = chars_of(tail.as_str());
    let mut q: Vec<char> = Vec::new();
    q.push('?');
    assert(q@ =~= seq!['?']);
    let head = crate::text::take_before(&tc, &q);
    let hs = crate::text::string_of(&head);
    let e = to_lowercase(hs.as_str());
    if same_text(e.as_str(), "png") || same_text(e.as_str(), "jpg") || same_text(e.as_str(), "jpeg")
        || same_text(e.as_str(), "webp") || same_text(e.as_str(), "gif") {
        e
    } else {
        owned("png")
    }
}

/// The last `c` of `s + t` is the last `c` of `s` when `t` holds no `c`.
proof fn lemma_last_index_skips(s: Seq<char>, t: Seq<char>, c: char)
    requires
        forall|i: int| 0 <= i < t.len() ==> t[i] != c,
    ensures
        last_index_of(s + t, c) == last_index_of(s, c),
    decreases t.len(),
{
    if t.len() > 0 {
        assert((s + t).drop_last() =~= s + t.drop_last());
        lemma_last_index_skips(s, t.drop_last(), c);
    } else {
        assert(s + t =~= s);
    }
}

/// A single character that does not occur in `s` is not found from `k` on.
proof fn lemma_char_not_found(s: Seq<char>, c: char, k: int)
    requires
        forall|i: int| 0 <= i < s.len() ==> s[i] != c,
    ensures
        find_from(s, seq![c], k) is None,
    decreases s.len() + 1 - k,
{
    if k >= 0 && k + 1 <= s.len() {
        assert(s.subrange(k, k + 1)[0] == s[k]);
        assert(!matches_at(s, seq![c], k));
        lemma_char_not_found(s, c, k + 1);
    }
}

/// Law: the extension part of `p.e` is `e`, whatever `p` is, when `e` holds
/// no `.` and no `?`. With `ext_from_url`'s contract this gives the
/// extension regardless of letter case: `x.PNG` and `x.png` both give `png`.
pub proof fn lemma_url_extension_part(p: Seq<char>, e: Seq<char>)
    requires
        forall|i: int| 0 <= i < e.len() ==> e[i] != '.' && e[i] != '?',
    ensures
        url_extension_part(p + seq!['.'] + e) == e,
{
    let head = p + seq!['.'];
    lemma_last_index_skips(head, e, '.');
    assert(head.drop_last() =~= p);
    assert(last_index_of(head, '.') == Some(p.len() as int));
    assert(head + e == p + seq!['.'] + e);
    assert((p + seq!['.'] + e).skip(p.len() + 1int) =~= e);
    lemma_char_not_found(e, '?', 0);
}

/// The extension of a file path as `Path::extension` gives it.
pub uninterp spec fn path_extension(path: Seq<char>) -> Option<Seq<char>>;

/// A name that `Path` reads as a single plain file name on every platform:
/// not empty, not `.` or `..`, and without `/`, `\` or `:`.
pub open spec fn plain_file_name(s: Seq<char>) -> bool {
    &&& s.len() > 0
    &&& s != seq!['.']
    &&& s != seq!['.', '.']
    &&& forall|i: int| 0 <= i < s.len() ==> #[trigger] s[i] != '/' && s[i] != '\\' && s[i] != ':'
}

/// The extension of a plain file name: the part after its last `.`; none
/// when it has no `.` or its only `.` begins the name.
pub open spec fn name_extension(s: Seq<char>) -> Option<Seq<char>> {
    match last_index_of(s, '.') {
        None => None,
        Some(i) => if i == 0 {
            None
        } else {
            Some(s.skip(i + 1))
        },
    }
}

/// Calls `std::path::Path::extension` on `path` and converts the extension
/// to a string (lossless, since it comes from a `str`). The result is
/// named `path_extension`; for a plain file name it is stated as the
/// documentation of `Path::extension` and `Path::file_name` gives it: the
/// file name is the name itself, and the extension is what follows its
/// last `.`, none when there is no `.` or the only one begins the name.
/// Of paths with separators the contract states nothing beyond the name,
/// since how they split depends on the platform.
#[verifier::external_body]
fn file_extension(path: &str) -> (r: Option<String>)
    ensures
        r.deep_view() == path_extension(path@),
        plain_file_name(path@) ==> r.deep_view() == name_extension(path@),
{
    std::path::Path::new(path).extension().map(|e| e.to_string_lossy().to_string())
}

/// Whether the file `name` has the extension `ext`, as `Path::extension`
/// finds it (how folders are filtered for `.json` metadata and `.md` files).
pub fn has_extension(name: &str, ext: &str) -> (r: bool)
    ensures
        r == (path_extension(name@) == Some(ext@)),
        plain_file_name(name@) ==> r == (name_extension(name@) == Some(ext@)),
{
    match file_extension(name) {
        Some(e) => same_text(e.as_str(), ext),
        None => false,
    }
}

/// Where an image comes from.
pub enum ImageSource {
    /// A local file path.
    Local(String),
    /// A URL to download.
    Remote(String),
}

/// The extension an image is stored with: a local file keeps its own
/// (`png` when it has none), a URL gives its extension as `ext_from_url`
/// finds it.
pub open spec fn stored_extension(source: ImageSource) -> Seq<char> {
    match source {
        ImageSource::Local(p) => match path_extension(p@) {
            Some(e) => e,
            None => "png"@,
        },
        ImageSource::Remote(u) => url_extension(u@),
    }
}

/// The file name an asset's image is stored under: `name.ext`.
pub fn image_file_name(name: &str, source: &ImageSource) -> (r: String)
    ensures
        r@ == name@ + "."@ + stored_extension(*source),
        source matches ImageSource::Local(p) ==> plain_file_name(p@) ==> r@ == name@ + "."@ + (
        match name_extension(p@) {
            Some(e) => e,
            None => "png"@,
        }),
{
    let ext = match source {
        ImageSource::Local(p) => match file_extension(p.as_str()) {
            Some(e) => e,
            None => owned("png"),
        },
        ImageSource::Remote(u) => ext_from_url(u.as_str()),
    };
    let mut r = owned(name);
    r.append(".");
    r.append(ext.as_str());
    r
}

/// The file an asset's metadata is stored in: `name.json`.
pub fn meta_file_name(name: &str) -> (r: String)
    ensures
        r@ == name@ + ".json"@,
{
    let mut r = owned(name);
    r.append(".json");
    r
}

/// The image to confirm with: the file when given, else the URL.
pub fn confirm_source(image: Option<String>, url: Option<String>) -> (r: Option<ImageSource>)
    ensures
        match (image, url) {
            (Some(p), _) => r == Some(ImageSource::Local(p)),
            (None, Some(u)) => r == Some(ImageSource::Remote(u)),
            (None, None) => r is None,
        },
{
    match (image, url) {
        (Some(p), _) => Some(ImageSource::Local(p)),
        (None, Some(u)) => Some(ImageSource::Remote(u)),
        (None, None) => None,
    }
}

// ---------------------------------------------------------------------------
// Pipeline moves
// ---------------------------------------------------------------------------

/// The result of asking an asset to move on.
pub enum AdvanceOutcome {
    /// The asset moves from one stage to the next.
    Moved { from: AssetStage, to: AssetStage },
    /// The asset is confirmed already; nothing changes.
    AlreadyConfirmed,
    /// The prompt stage needs a concept or keywords first.
    NeedsConcept,
}

/// The result of moving an asset on: the next stage, unless it is the
/// prompt stage and the asset has neither concept nor keywords, or the
/// asset is confirmed already.
pub open spec fn advance_of(meta: AssetMeta) -> AdvanceOutcome {
    match stage_after(meta.stage) {
        None => AdvanceOutcome::AlreadyConfirmed,
        Some(n) => if n == AssetStage::PromptReady && meta.keywords is None && meta.concept is None {
            AdvanceOutcome::NeedsConcept
        } else {
            AdvanceOutcome::Moved { from: meta.stage, to: n }
        },
    }
}

/// Decides how an asset moves on in the pipeline.
pub fn advance_stage(meta: &AssetMeta) -> (r: AdvanceOutcome)
    ensures
        r == advance_of(*meta),
{
    match meta.stage.next() {
        None => AdvanceOutcome::AlreadyConfirmed,
        Some(n) => {
            if n == AssetStage::PromptReady && meta.keywords.is_none() && meta.concept.is_none() {
                AdvanceOutcome::NeedsConcept
            } else {
                AdvanceOutcome::Moved { from: meta.stage, to: n }
            }
        },
    }
}

/// Law: a move goes exactly one stage further, never skips a stage, and
/// never reaches the prompt stage without a concept or keywords.
pub proof fn lemma_advance_one_step(meta: AssetMeta)
    ensures
        advance_of(meta) matches AdvanceOutcome::Moved { from, to } ==> from == meta.stage
            && stage_rank(to) == stage_rank(from) + 1 && (to == AssetStage::PromptReady
            ==> meta.keywords is Some || meta.concept is Some),
        advance_of(meta) is AlreadyConfirmed <==> meta.stage == AssetStage::Confirmed,
{
}

/// Law: an asset is refused the move to the prompt stage exactly when it
/// is at the concept stage with neither a concept nor keywords; a concept
/// alone or keywords alone are enough. Every other asset that is not
/// confirmed moves on by one stage.
pub proof fn lemma_advance_needs_concept_or_keywords(meta: AssetMeta)
    ensures
        advance_of(meta) is NeedsConcept <==> (meta.stage == AssetStage::Concept
            && meta.concept is None && meta.keywords is None),
        meta.stage == AssetStage::Concept && (meta.concept is Some || meta.keywords is Some)
            ==> advance_of(meta) == (AdvanceOutcome::Moved {
            from: AssetStage::Concept,
            to: AssetStage::PromptReady,
        }),
        meta.stage != AssetStage::Confirmed && !(meta.stage == AssetStage::Concept
            && meta.concept is None && meta.keywords is None) ==> (advance_of(meta) matches AdvanceOutcome::Moved { from, to }
            && from == meta.stage && stage_rank(to) == stage_rank(meta.stage) + 1),
{
}

/// Whether an asset can be confirmed: only at the generated stage.
pub fn can_confirm(stage: AssetStage) -> (r: bool)
    ensures
        r == (stage == AssetStage::Generated),
{
    stage == AssetStage::Generated
}

/// Confirms a generated asset with its final image.
pub fn mark_confirmed(meta: &mut AssetMeta, image_name: String)
    requires
        old(meta).stage == AssetStage::Generated,
    ensures
        final(meta).stage == AssetStage::Confirmed,
        final(meta).image == Some(image_name),
        final(meta).name == old(meta).name,
        final(meta).asset_type == old(meta).asset_type,
        final(meta).concept == old(meta).concept,
        final(meta).keywords == old(meta).keywords,
        final(meta).created_at == old(meta).created_at,
{
    meta.stage = AssetStage::Confirmed;
    meta.image = Some(image_name);
}

/// Law: a confirmed asset cannot move on and cannot be confirmed again.
pub proof fn lemma_confirmed_is_final(meta: AssetMeta)
    requires
        meta.stage == AssetStage::Confirmed,
    ensures
        advance_of(meta) == AdvanceOutcome::AlreadyConfirmed,
        meta.stage != AssetStage::Generated,
{
}

/// The mark of stage `s` for an asset at `current`: done, current, to come.
pub open spec fn stage_mark_of(s: AssetStage, current: AssetStage) -> Seq<char> {
    if stage_rank(s) < stage_rank(current) {
        "✅"@
    } else if stage_rank(s) == stage_rank(current) {
        "👉"@
    } else {
        "⬜"@
    }
}

/// The mark of stage `s` for an asset at `current`.
pub fn stage_mark(s: AssetStage, current: AssetStage) -> (r: &'static str)
    ensures
        r@ == stage_mark_of(s, current),
{
    if s.index() < current.index() {
        "✅"
    } else if s.index() == current.index() {
        "👉"
    } else {
        "⬜"
    }
}

/// The pipeline line of one stage: `  mark [i/4] label`.
pub open spec fn stage_line_of(s: AssetStage, current: AssetStage) -> Seq<char> {
    "  "@ + stage_mark_of(s, current) + " ["@ + decimal(stage_rank(s) as nat) + "/4] "@
        + stage_label(s)
}

/// The pipeline lines of an asset at `current`, one per stage in order.
pub fn stage_lines(current: AssetStage) -> (r: Vec<String>)
    ensures
        r.deep_view() == all_stages().map_values(|s: AssetStage| stage_line_of(s, current)),
{
    let stages = vec![
        AssetStage::Concept,
        AssetStage::PromptReady,
        AssetStage::Generated,
        AssetStage::Confirmed,
    ];
    let mut out: Vec<String> = Vec::new();
    let mut i: usize = 0;
    while i < stages.len()
        invariant
            i <= stages.len(),
            stages@ == all_stages(),
            out.deep_view() == all_stages().take(i as int).map_values(
                |s: AssetStage| stage_line_of(s, current),
            ),
        decreases stages.len() - i,
    {
        let s = stages[i];
        let mut line = owned("  ");
        line.append(stage_mark(s, current));
        line.append(" [");
        let n = nat_text(s.index() as u64);
        line.append(n.as_str());
        line.append("/4] ");
        line.append(s.label());
        assert(s == all_stages()[i as int]);
        assert(line@ =~= stage_line_of(s, current));
        assert(all_stages().take(i + 1) =~= all_stages().take(i as int).push(s));
        let ghost before = out.deep_view();
        out.push(line);
        assert(out.deep_view() =~= before.push(stage_line_of(s, current)));
        assert(all_stages().take(i + 1).map_values(|s: AssetStage| stage_line_of(s, current))
            =~= all_stages().take(i as int).map_values(
            |s: AssetStage| stage_line_of(s, current),
        ).push(stage_line_of(s, current)));
        assert(out.deep_view() =~= all_stages().take(i + 1).map_values(
            |s: AssetStage| stage_line_of(s, current),
        ));
        i = i + 1;
    }
    assert(all_stages().take(4) =~= all_stages());
    out
}

/// The line of an asset in a listing: an image mark, its name and stage.
pub open spec fn list_line_of(meta: AssetMeta) -> Seq<char> {
    "  "@ + (if meta.image is Some {
        "🖼"@
    } else {
        "  "@
    }) + " "@ + meta.name@ + " | ["@ + decimal(stage_rank(meta.stage) as nat) + "/4] "@
        + stage_label(meta.stage)
}

/// The line of an asset in a listing.
pub fn list_line(meta: &AssetMeta) -> (r: String)
    ensures
        r@ == list_line_of(*meta),
{
    let mut r = owned("  ");
    if meta.image.is_some() {
        r.append("🖼");
    } else {
        r.append("  ");
    }
    r.append(" ");
    r.append(meta.name.as_str());
    r.append(" | [");
    let n = nat_text(meta.stage.index() as u64);
    r.append(n.as_str());
    r.append("/4] ");
    r.append(meta.stage.label());
    assert(r@ =~= list_line_of(*meta));
    r
}

// ---------------------------------------------------------------------------
// Commands
// ---------------------------------------------------------------------------

/// An asset command.
#[allow(inconsistent_fields)]
pub enum AssetCmd {
    Add {
        kind: String,
        name: String,
        image: Option<String>,
        url: Option<String>,
        concept: Option<String>,
        keywords: Option<String>,
    },
    List { kind: Option<String> },
    Show { name: String },
    Remove { name: String },
    Advance { name: String },
    Confirm { name: String, image: Option<String>, url: Option<String> },
}

/// What an asset command does.
#[allow(inconsistent_fields)]
pub enum AssetPlan {
    /// Add an asset of `kind` in folder `dir`, with the image from `source`.
    Add {
        dir: &'static str,
        kind: String,
        name: String,
        source: Option<ImageSource>,
        concept: Option<String>,
        keywords: Option<String>,
    },
    /// List the assets of these folders.
    List(Vec<Shelf>),
    Show { name: String },
    Remove { name: String },
    Advance { name: String },
    /// Confirm the asset with the image from `source`.
    Confirm { name: String, source: ImageSource },
}

/// Why an asset command was refused.
pub enum AssetError {
    /// The kind is not one of character, monster, background and object.
    UnknownType(String),
    /// Confirming needs an image file or a URL.
    NoImageGiven,
}

/// What an asset command does: an unknown kind is refused, an added
/// asset takes its image from the file when given, else from the URL, and
/// confirming needs one of the two.
pub fn run(cmd: AssetCmd) -> (r: Result<AssetPlan, AssetError>)
    ensures
        match cmd {
            AssetCmd::Add { kind, name, image, url, concept, keywords } => match asset_dir(kind@) {
                None => r == Err::<AssetPlan, AssetError>(AssetError::UnknownType(kind)),
                Some(d) => r matches Ok(AssetPlan::Add { dir, kind: k, name: n, source, concept: c, keywords: w })
                    && dir@ == d && k == kind && n == name && c == concept && w == keywords
                    && match (image, url) {
                        (Some(p), _) => source == Some(ImageSource::Local(p)),
                        (None, Some(u)) => source == Some(ImageSource::Remote(u)),
                        (None, None) => source is None,
                    },
            },
            AssetCmd::List { kind: None } => r matches Ok(AssetPlan::List(v)) && shelves_view(v@)
                == all_shelves(),
            AssetCmd::List { kind: Some(t) } => match asset_dir(t@) {
                None => r == Err::<AssetPlan, AssetError>(AssetError::UnknownType(t)),
                Some(d) => r matches Ok(AssetPlan::List(v)) && shelves_view(v@) == seq![
                    (d, asset_label(t@)),
                ],
            },
            AssetCmd::Show { name } => r == Ok::<AssetPlan, AssetError>(AssetPlan::Show { name }),
            AssetCmd::Remove { name } => r == Ok::<AssetPlan, AssetError>(
                AssetPlan::Remove { name },
            ),
            AssetCmd::Advance { name } => r == Ok::<AssetPlan, AssetError>(
                AssetPlan::Advance { name },
            ),
            AssetCmd::Confirm { name, image, url } => match (image, url) {
                (Some(p), _) => r == Ok::<AssetPlan, AssetError>(
                    AssetPlan::Confirm { name, source: ImageSource::Local(p) },
                ),
                (None, Some(u)) => r == Ok::<AssetPlan, AssetError>(
                    AssetPlan::Confirm { name, source: ImageSource::Remote(u) },
                ),
                (None, None) => r == Err::<AssetPlan, AssetError>(AssetError::NoImageGiven),
            },
        },
{
    match cmd {
        AssetCmd::Add { kind, name, image, url, concept, keywords } => {
            match type_to_dir(kind.as_str()) {
                None => Err(AssetError::UnknownType(kind)),
                Some(dir) => {
                    let source = confirm_source(image, url);
                    Ok(AssetPlan::Add { dir, kind, name, source, concept, keywords })
                },
            }
        },
        AssetCmd::List { kind } => match kind {
            None => Ok(AssetPlan::List(shelves())),
            Some(t) => match type_to_dir(t.as_str()) {
                None => Err(AssetError::UnknownType(t)),
                Some(dir) => {
                    let label = type_label(t.as_str());
                    let shelf = Shelf { dir, label };
                    let v = vec![shelf];
                    assert(shelves_view(v@) =~= seq![(dir@, asset_label(t@))]);
                    Ok(AssetPlan::List(v))
                },
            },
        },
        AssetCmd::Show { name } => Ok(AssetPlan::Show { name }),
        AssetCmd::Remove { name } => Ok(AssetPlan::Remove { name }),
        AssetCmd::Advance { name } => Ok(AssetPlan::Advance { name }),
        AssetCmd::Confirm { name, image, url } => match confirm_source(image, url) {
            Some(source) => Ok(AssetPlan::Confirm { name, source }),
            None => Err(AssetError::NoImageGiven),
        },
    }
}

} // verus!
