//! Navigation of the three-pane terminal view: a sidebar of five sections,
//! a list of the section's items and a detail pane. Keys move the focus
//! and the selections; the caller loads items and details when told to.

use vstd::prelude::*;
use crate::text::{chars_of, owned, same_text, text_le, text_le_exec};

verus! {

/// A section of the sidebar.
#[derive(Clone, Copy, Debug, PartialEq, Eq, Structural)]
pub enum Section {
    Projects,
    Assets,
    Prompts,
    Skills,
    Rules,
}

/// The sections in sidebar order.
pub open spec fn section_at(i: int) -> Section {
    if i == 0 {
        Section::Projects
    } else if i == 1 {
        Section::Assets
    } else if i == 2 {
        Section::Prompts
    } else if i == 3 {
        Section::Skills
    } else {
        Section::Rules
    }
}

/// The title of a section.
pub open spec fn section_label(s: Section) -> Seq<char> {
    match s {
        Section::Projects => "📋 프로젝트"@,
        Section::Assets => "🎨 에셋"@,
        Section::Prompts => "📝 프롬프트"@,
        Section::Skills => "📖 스킬"@,
        Section::Rules => "⚙️  규칙"@,
    }
}

impl Section {
    /// The title of the section.
    pub fn label(&self) -> (r: &'static str)
        ensures
            r@ == section_label(*self),
    {
        match self {
            Section::Projects => "📋 프로젝트",
            Section::Assets => "🎨 에셋",
            Section::Prompts => "📝 프롬프트",
            Section::Skills => "📖 스킬",
            Section::Rules => "⚙️  규칙",
        }
    }

    /// The sections in sidebar order.
    pub fn all() -> (r: Vec<Section>)
        ensures
            r@.len() == 5,
            forall|i: int| 0 <= i < 5 ==> r@[i] == section_at(i),
    {
        vec![Section::Projects, Section::Assets, Section::Prompts, Section::Skills, Section::Rules]
    }
}

/// The section at sidebar position `i`.
fn section_of(i: usize) -> (r: Section)
    requires
        i < 5,
    ensures
        r == section_at(i as int),
{
    if i == 0 {
        Section::Projects
    } else if i == 1 {
        Section::Assets
    } else if i == 2 {
        Section::Prompts
    } else if i == 3 {
        Section::Skills
    } else {
        Section::Rules
    }
}

/// The pane that keys act on.
#[derive(Clone, Copy, Debug, PartialEq, Eq, Structural)]
pub enum Focus {
    Sidebar,
    Main,
    Detail,
}

/// The pane after `f` in Tab order.
pub open spec fn focus_after(f: Focus) -> Focus {
    match f {
        Focus::Sidebar => Focus::Main,
        Focus::Main => Focus::Detail,
        Focus::Detail => Focus::Sidebar,
    }
}

/// A key as the navigation sees it.
#[derive(Clone, Copy, Debug, PartialEq, Eq, Structural)]
pub enum Key {
    /// `q` or Escape.
    Quit,
    Tab,
    /// Down arrow or `j`.
    Down,
    /// Up arrow or `k`.
    Up,
    /// `r`.
    Refresh,
    Other,
}

/// What the caller must do after a key.
#[derive(Clone, Copy, Debug, PartialEq, Eq, Structural)]
pub enum Effect {
    Quit,
    /// Load the items of the current section, then call `items_loaded`.
    ReloadMain,
    /// Load the detail of the selected item.
    ReloadDetail,
    Nothing,
}

/// The navigation state.
pub struct Nav {
    pub section: Section,
    pub focus: Focus,
    /// The selected sidebar position.
    pub sidebar: usize,
    /// The selected item, if there are items.
    pub main: Option<usize>,
    /// The number of items of the current section.
    pub main_len: usize,
}

/// The mathematical content of the navigation state.
pub struct NavView {
    pub section: Section,
    pub focus: Focus,
    pub sidebar: int,
    pub main: Option<int>,
    pub main_len: int,
}

impl View for Nav {
    type V = NavView;

    open spec fn view(&self) -> NavView {
        NavView {
            section: self.section,
            focus: self.focus,
            sidebar: self.sidebar as int,
            main: match self.main {
                Some(i) => Some(i as int),
                None => None,
            },
            main_len: self.main_len as int,
        }
    }
}

/// A consistent state: the sidebar selection is a position and shows its
/// section, and an item is selected exactly when there are items.
pub open spec fn nav_wf(n: NavView) -> bool {
    &&& 0 <= n.sidebar < 5
    &&& n.section == section_at(n.sidebar)
    &&& n.main_len >= 0
    &&& match n.main {
        Some(i) => 0 <= i < n.main_len,
        None => n.main_len == 0,
    }
}

/// The position after `i` among `n`, wrapping to the first (what
/// `(i + 1) % n` gives for `i < n`).
pub open spec fn next_index(i: int, n: int) -> int {
    if i + 1 == n {
        0
    } else {
        i + 1
    }
}

/// The position before `i` among `n`, wrapping to the last.
pub open spec fn prev_index(i: int, n: int) -> int {
    if i == 0 {
        n - 1
    } else {
        i - 1
    }
}

/// The state after a key.
pub open spec fn after_key(n: NavView, key: Key) -> NavView {
    match key {
        Key::Tab => NavView { focus: focus_after(n.focus), ..n },
        Key::Down => match n.focus {
            Focus::Sidebar => {
                let s = next_index(n.sidebar, 5);
                NavView { sidebar: s, section: section_at(s), ..n }
            },
            Focus::Main => if n.main_len > 0 {
                let i = match n.main {
                    Some(i) => i,
                    None => 0,
                };
                NavView { main: Some(next_index(i, n.main_len)), ..n }
            } else {
                n
            },
            Focus::Detail => n,
        },
        Key::Up => match n.focus {
            Focus::Sidebar => {
                let s = prev_index(n.sidebar, 5);
                NavView { sidebar: s, section: section_at(s), ..n }
            },
            Focus::Main => if n.main_len > 0 {
                let i = match n.main {
                    Some(i) => i,
                    None => 0,
                };
                NavView { main: Some(prev_index(i, n.main_len)), ..n }
            } else {
                n
            },
            Focus::Detail => n,
        },
        _ => n,
    }
}

/// What the caller must do after a key.
pub open spec fn effect_of(n: NavView, key: Key) -> Effect {
    match key {
        Key::Quit => Effect::Quit,
        Key::Refresh => Effect::ReloadMain,
        Key::Down | Key::Up => match n.focus {
            Focus::Sidebar => Effect::ReloadMain,
            Focus::Main => if n.main_len > 0 {
                Effect::ReloadDetail
            } else {
                Effect::Nothing
            },
            Focus::Detail => Effect::Nothing,
        },
        _ => Effect::Nothing,
    }
}

/// The state after the items of the current section were loaded: the first
/// item is selected when there is one.
pub open spec fn after_load(n: NavView, len: int) -> NavView {
    NavView {
        main: if len > 0 {
            Some(0)
        } else {
            None
        },
        main_len: len,
        ..n
    }
}

impl Nav {
    /// The starting state: the projects section, the sidebar focused, no
    /// items loaded yet (the caller loads them, then calls `items_loaded`).
    pub fn new() -> (r: Nav)
        ensures
            nav_wf(r@),
            r@.section == Section::Projects,
            r@.focus == Focus::Sidebar,
            r@.sidebar == 0,
            r@.main_len == 0,
    {
        Nav { section: Section::Projects, focus: Focus::Sidebar, sidebar: 0, main: None, main_len: 0 }
    }

    /// Records that the current section has `len` items.
    pub fn items_loaded(&mut self, len: usize)
        ensures
            final(self)@ == after_load(old(self)@, len as int),
    {
        self.main_len = len;
        self.main = if len > 0 {
            Some(0)
        } else {
            None
        };
    }

    /// Acts on a key and tells what the caller must load.
    pub fn handle_key(&mut self, key: Key) -> (r: Effect)
        requires
            nav_wf(old(self)@),
        ensures
            final(self)@ == after_key(old(self)@, key),
            r == effect_of(old(self)@, key),
    {
        match key {
            Key::Quit => Effect::Quit,
            Key::Refresh => Effect::ReloadMain,
            Key::Tab => {
                self.focus = match self.focus {
                    Focus::Sidebar => Focus::Main,
                    Focus::Main => Focus::Detail,
                    Focus::Detail => Focus::Sidebar,
                };
                Effect::Nothing
            },
            Key::Down => match self.focus {
                Focus::Sidebar => {
                    let next = if self.sidebar + 1 == 5 {
                        0
                    } else {
                        self.sidebar + 1
                    };
                    self.sidebar = next;
                    self.section = section_of(next);
                    Effect::ReloadMain
                },
                Focus::Main => {
                    if self.main_len > 0 {
                        let i = match self.main {
                            Some(i) => i,
                            None => 0,
                        };
                        self.main = Some(
                            if i + 1 == self.main_len {
                                0
                            } else {
                                i + 1
                            },
                        );
                        Effect::ReloadDetail
                    } else {
                        Effect::Nothing
                    }
                },
                Focus::Detail => Effect::Nothing,
            },
            Key::Up => match self.focus {
                Focus::Sidebar => {
                    let prev = if self.sidebar == 0 {
                        4
                    } else {
                        self.sidebar - 1
                    };
                    self.sidebar = prev;
                    self.section = section_of(prev);
                    Effect::ReloadMain
                },
                Focus::Main => {
                    if self.main_len > 0 {
                        let i = match self.main {
                            Some(i) => i,
                            None => 0,
                        };
                        self.main = Some(
                            if i == 0 {
                                self.main_len - 1
                            } else {
                                i - 1
                            },
                        );
                        Effect::ReloadDetail
                    } else {
                        Effect::Nothing
                    }
                },
                Focus::Detail => Effect::Nothing,
            },
            Key::Other => Effect::Nothing,
        }
    }
}

/// Law: every key and every load keeps the state consistent.
pub proof fn lemma_nav_stays_wf(n: NavView, key: Key, len: int)
    requires
        nav_wf(n),
        len >= 0,
    ensures
        nav_wf(after_key(n, key)),
        nav_wf(after_load(n, len)),
{
}

/// Law: Up undoes Down, and Down undoes Up, in the focused list.
pub proof fn lemma_up_undoes_down(n: NavView)
    requires
        nav_wf(n),
    ensures
        after_key(after_key(n, Key::Down), Key::Up) == n,
        after_key(after_key(n, Key::Up), Key::Down) == n,
{
}

/// Law: three Tabs bring the focus back.
pub proof fn lemma_tab_cycles(n: NavView)
    ensures
        after_key(after_key(after_key(n, Key::Tab), Key::Tab), Key::Tab) == n,
{
}

/// Law: moving down through a list of `len` items visits every item and
/// returns to the start after `len` steps.
pub proof fn lemma_down_wraps(i: int, len: int)
    requires
        0 <= i < len,
    ensures
        0 <= next_index(i, len) < len,
        i == len - 1 ==> next_index(i, len) == 0,
        i < len - 1 ==> next_index(i, len) == i + 1,
{
}

// ---------------------------------------------------------------------------
// Items
// ---------------------------------------------------------------------------

/// The text shown when a section has no items.
pub fn empty_text(section: Section) -> (r: String)
    ensures
        r@ == section_label(section) + " 항목이 없습니다."@,
{
    let mut r = owned(section.label());
    r.append(" 항목이 없습니다.");
    r
}

/// An item of a list: its id and the text shown.
pub struct Item {
    pub id: String,
    pub display: String,
}

/// The icon of an asset folder.
pub open spec fn asset_icon(dir: Seq<char>) -> Seq<char> {
    if dir == "characters"@ {
        "👤"@
    } else if dir == "monsters"@ {
        "👹"@
    } else if dir == "backgrounds"@ {
        "🏞 "@
    } else if dir == "objects"@ {
        "🗡 "@
    } else {
        "  "@
    }
}

/// The item of an asset: `dir/name`, shown with the folder's icon.
pub fn asset_item(dir: &str, name: &str) -> (r: Item)
    ensures
        r.id@ == dir@ + "/"@ + name@,
        r.display@ == asset_icon(dir@) + " "@ + name@,
{
    let mut id = owned(dir);
    id.append("/");
    id.append(name);
    let icon = if same_text(dir, "characters") {
        "👤"
    } else if same_text(dir, "monsters") {
        "👹"
    } else if same_text(dir, "backgrounds") {
        "🏞 "
    } else if same_text(dir, "objects") {
        "🗡 "
    } else {
        "  "
    };
    let mut display = owned(icon);
    display.append(" ");
    display.append(name);
    Item { id, display }
}

/// The item of a project, marked when it is the current one.
pub fn project_item(name: &str, current: &Option<String>) -> (r: Item)
    ensures
        r.id@ == name@,
        r.display@ == name@ + if current.deep_view() == Some(name@) {
            " ◀"@
        } else {
            Seq::empty()
        },
{
    let mut display = owned(name);
    let is_current = match current {
        Some(c) => same_text(c.as_str(), name),
        None => false,
    };
    if is_current {
        display.append(" ◀");
    }
    Item { id: owned(name), display }
}

/// `s` ends with `suf`.
pub open spec fn has_suffix(s: Seq<char>, suf: Seq<char>) -> bool {
    suf.len() <= s.len() && s.skip(s.len() - suf.len()) == suf
}

/// Whether `s` ends with `suf`.
pub fn ends_with(s: &str, suf: &str) -> (r: bool)
    ensures
        r == has_suffix(s@, suf@),
{
    let sc = chars_of(s);
    let fc = chars_of(suf);
    if fc.len() > sc.len() {
        return false;
    }
    let start = sc.len() - fc.len();
    let r = crate::text::matches_at_exec(&sc, &fc, start);
    assert(sc@.subrange(start as int, start + fc@.len()) =~= sc@.skip(start as int));
    r
}

/// The item of a file in the prompt folder: version files (`.json`) and
/// sheets (`_sheet.md`) are listed, other files are not.
pub fn prompt_item(name: &str) -> (r: Option<Item>)
    ensures
        match r {
            None => !has_suffix(name@, ".json"@) && !has_suffix(name@, "_sheet.md"@),
            Some(item) => (has_suffix(name@, ".json"@) || has_suffix(name@, "_sheet.md"@))
                && item.id@ == name@ && item.display@ == (if has_suffix(name@, "_sheet.md"@) {
                "📋"@
            } else {
                "📝"@
            }) + " "@ + name@,
        },
{
    let is_sheet = ends_with(name, "_sheet.md");
    if !ends_with(name, ".json") && !is_sheet {
        return None;
    }
    let mut display = owned(if is_sheet {
        "📋"
    } else {
        "📝"
    });
    display.append(" ");
    display.append(name);
    Some(Item { id: owned(name), display })
}

/// Whether an item's id comes before `id` or equals it.
fn item_le(item: &Item, id: &Vec<char>) -> (r: bool)
    ensures
        r == text_le(item.id@, id@),
{
    let c = chars_of(item.id.as_str());
    text_le_exec(&c, id)
}

/// Where an item with id `id` goes in a list sorted by id: after every item
/// whose id comes before it or equals it.
pub open spec fn item_pos(t: Seq<Item>, id: Seq<char>) -> int
    decreases t.len(),
{
    if t.len() == 0 {
        0
    } else if text_le(t.last().id@, id) {
        t.len() as int
    } else {
        item_pos(t.drop_last(), id)
    }
}

/// The items in order of id.
pub open spec fn sorted_by_id(s: Seq<Item>) -> Seq<Item>
    decreases s.len(),
{
    if s.len() == 0 {
        Seq::empty()
    } else {
        let t = sorted_by_id(s.drop_last());
        t.insert(item_pos(t, s.last().id@), s.last())
    }
}

/// The insertion point lies within the list.
pub proof fn lemma_item_pos_bounds(t: Seq<Item>, id: Seq<char>)
    ensures
        0 <= item_pos(t, id) <= t.len(),
    decreases t.len(),
{
    if t.len() > 0 {
        lemma_item_pos_bounds(t.drop_last(), id);
    }
}

/// The items in order of id, as the prompt list shows them.
pub fn sort_items(items: Vec<Item>) -> (r: Vec<Item>)
    ensures
        r@ == sorted_by_id(items@),
{
    let ghost orig = items@;
    let mut rest = items;
    let total = rest.len();
    assert(orig.len() == total);
    let mut out: Vec<Item> = Vec::new();
    let mut k: usize = 0;
    assert(orig.take(0) =~= Seq::<Item>::empty());
    while rest.len() > 0
        invariant
            k + rest.len() == orig.len(),
            orig.len() <= usize::MAX,
            rest@ == orig.skip(k as int),
            out@ == sorted_by_id(orig.take(k as int)),
        decreases rest.len(),
    {
        let e = rest.remove(0);
        assert(orig.take(k + 1).drop_last() =~= orig.take(k as int));
        assert(orig.take(k + 1).last() == e);
        let ec = chars_of(e.id.as_str());
        let mut j = out.len();
        assert(out@.take(j as int) =~= out@);
        while j > 0 && !item_le(&out[j - 1], &ec)
            invariant
                j <= out.len(),
                ec@ == e.id@,
                item_pos(out@, e.id@) == item_pos(out@.take(j as int), e.id@),
            decreases j,
        {
            assert(out@.take(j as int).last() == out@[j - 1]);
            assert(out@.take(j as int).drop_last() =~= out@.take(j - 1));
            j = j - 1;
        }
        proof {
            if j > 0 {
                assert(out@.take(j as int).last() == out@[j - 1]);
            }
        }
        proof {
            lemma_item_pos_bounds(out@, e.id@);
        }
        out.insert(j, e);
        k = k + 1;
        assert(rest@ =~= orig.skip(k as int));
    }
    assert(orig.take(k as int) =~= orig);
    out
}

} // verus!
