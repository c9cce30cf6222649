//! The persistent dashboard configuration: the shortcut canvas windows and the
//! id that the next one gets, with the edits that the control panel makes.
//!
//! Window geometry is held as IEEE-754 `f32` bit patterns: the library carries
//! those values unchanged and never computes with them.

use vstd::prelude::*;
use vstd::string::StringExecFns;
use crate::numfmt::{decimal_chars, push_decimal};
use crate::text::{
    is_whitespace_trim_of, lemma_trim_removes_only_edge_whitespace, trim_chars, trim_whitespace,
};

verus! {

/// Bit pattern of the `f32` 150.0, the initial x and y position of a new window.
pub const DEFAULT_POS_BITS: u32 = 0x4316_0000;

/// Bit pattern of the `f32` 280.0, the initial width of a new window.
pub const DEFAULT_WIDTH_BITS: u32 = 0x438C_0000;

/// Bit pattern of the `f32` 220.0, the initial height of a new window.
pub const DEFAULT_HEIGHT_BITS: u32 = 0x435C_0000;

/// A program that a canvas window launches.
#[derive(Debug, Clone)]
pub struct ShortcutConfig {
    pub name: String,
    pub exe_path: String,
    pub icon_png_path: String,
}

/// The abstract content of a `ShortcutConfig`.
pub struct ShortcutView {
    pub name: Seq<char>,
    pub exe_path: Seq<char>,
    pub icon_png_path: Seq<char>,
}

impl View for ShortcutConfig {
    type V = ShortcutView;

    open spec fn view(&self) -> ShortcutView {
        ShortcutView {
            name: self.name@,
            exe_path: self.exe_path@,
            icon_png_path: self.icon_png_path@,
        }
    }
}

/// A shortcut canvas window: its id, title, geometry (as `f32` bit patterns)
/// and shortcuts.
#[derive(Debug, Clone)]
pub struct WindowConfig {
    pub id_token: u32,
    pub title: String,
    pub pos_x_bits: u32,
    pub pos_y_bits: u32,
    pub width_bits: u32,
    pub height_bits: u32,
    pub shortcuts: Vec<ShortcutConfig>,
}

/// The abstract content of a `WindowConfig`.
pub struct WindowView {
    pub id_token: u32,
    pub title: Seq<char>,
    pub pos_x_bits: u32,
    pub pos_y_bits: u32,
    pub width_bits: u32,
    pub height_bits: u32,
    pub shortcuts: Seq<ShortcutView>,
}

impl View for WindowConfig {
    type V = WindowView;

    open spec fn view(&self) -> WindowView {
        WindowView {
            id_token: self.id_token,
            title: self.title@,
            pos_x_bits: self.pos_x_bits,
            pos_y_bits: self.pos_y_bits,
            width_bits: self.width_bits,
            height_bits: self.height_bits,
            shortcuts: self.shortcuts@.map_values(|s: ShortcutConfig| s@),
        }
    }
}

/// The whole configuration: the windows in creation order and the id of the
/// next window.
#[derive(Debug, Clone)]
pub struct AppConfig {
    pub windows: Vec<WindowConfig>,
    pub next_id: u32,
}

/// The abstract content of an `AppConfig`.
pub struct ConfigView {
    pub windows: Seq<WindowView>,
    pub next_id: u32,
}

impl View for AppConfig {
    type V = ConfigView;

    open spec fn view(&self) -> ConfigView {
        ConfigView {
            windows: self.windows@.map_values(|w: WindowConfig| w@),
            next_id: self.next_id,
        }
    }
}

/// The title given to a window whose display name was left empty.
pub open spec fn default_title_chars() -> Seq<char> {
    seq!['S', 'h', 'o', 'r', 't', 'c', 'u', 't', ' ', 'L', 'a', 'y', 'e', 'r']
}

/// The title of a new window: the trimmed display name, or the default title
/// where no name was typed (a name of only spaces is kept, and trims to empty).
pub open spec fn window_title_chars(name_input: Seq<char>) -> Seq<char> {
    if name_input.len() == 0 {
        default_title_chars()
    } else {
        trim_chars(name_input)
    }
}

/// Where the icon of window `id` is cached: `_icon_cache/icon_<id>.png`.
pub open spec fn icon_path_chars(id: nat) -> Seq<char> {
    seq!['_', 'i', 'c', 'o', 'n', '_', 'c', 'a', 'c', 'h', 'e', '/', 'i', 'c', 'o', 'n', '_']
        + decimal_chars(id) + seq!['.', 'p', 'n', 'g']
}

/// The window that the control panel creates for id `id` from its two inputs.
pub open spec fn new_window_view(id: u32, exe_input: Seq<char>, name_input: Seq<char>) -> WindowView {
    WindowView {
        id_token: id,
        title: window_title_chars(name_input),
        pos_x_bits: DEFAULT_POS_BITS,
        pos_y_bits: DEFAULT_POS_BITS,
        width_bits: DEFAULT_WIDTH_BITS,
        height_bits: DEFAULT_HEIGHT_BITS,
        shortcuts: seq![
            ShortcutView {
                name: window_title_chars(name_input),
                exe_path: trim_chars(exe_input),
                icon_png_path: icon_path_chars(id as nat),
            },
        ],
    }
}

/// `i` is the first position of `windows` that holds a window with id `id`.
pub open spec fn is_first_with_id(windows: Seq<WindowView>, id: u32, i: int) -> bool {
    &&& 0 <= i < windows.len()
    &&& windows[i].id_token == id
    &&& forall|k: int| 0 <= k < i ==> #[trigger] windows[k].id_token != id
}

/// Some window of `windows` has id `id`.
pub open spec fn has_window(windows: Seq<WindowView>, id: u32) -> bool {
    exists|i: int| 0 <= i < windows.len() && #[trigger] windows[i].id_token == id
}

/// `w` with its size replaced.
pub open spec fn resized(w: WindowView, width_bits: u32, height_bits: u32) -> WindowView {
    WindowView { width_bits, height_bits, ..w }
}

/// The windows that remain after the window(s) with id `id` are removed.
pub open spec fn without_id(windows: Seq<WindowView>, id: u32) -> Seq<WindowView> {
    windows.filter(|w: WindowView| w.id_token != id)
}

/// Every window of `ws` has an id below `next`.
pub open spec fn ids_below(ws: Seq<WindowView>, next: u32) -> bool {
    forall|i: int| 0 <= i < ws.len() ==> #[trigger] ws[i].id_token < next
}

/// No two windows of `ws` share an id.
pub open spec fn ids_distinct(ws: Seq<WindowView>) -> bool {
    forall|i: int, j: int|
        0 <= i < j < ws.len() ==> #[trigger] ws[i].id_token != #[trigger] ws[j].id_token
}

/// Every window's id is below the next id, and no two windows share an id:
/// what the control panel's edits keep of a configuration that starts empty.
pub open spec fn ids_well_formed(c: ConfigView) -> bool {
    ids_below(c.windows, c.next_id) && ids_distinct(c.windows)
}

/// The configuration after a window is added from the two inputs.
pub open spec fn after_add(c: ConfigView, exe_input: Seq<char>, name_input: Seq<char>) -> ConfigView {
    ConfigView {
        windows: c.windows.push(new_window_view(c.next_id, exe_input, name_input)),
        next_id: (c.next_id + 1) as u32,
    }
}

/// Distinct window ids give distinct icon cache paths, so no window's icon
/// overwrites another's.
pub proof fn lemma_icon_paths_distinct(a: nat, b: nat)
    requires
        a != b,
    ensures
        icon_path_chars(a) != icon_path_chars(b),
{
    if icon_path_chars(a) == icon_path_chars(b) {
        let pa = icon_path_chars(a);
        let pb = icon_path_chars(b);
        let da = decimal_chars(a);
        let db = decimal_chars(b);
        assert(pa.len() == da.len() + 21);
        assert(pb.len() == db.len() + 21);
        assert(da.len() == db.len());
        assert(pa.subrange(17, 17 + da.len() as int) =~= da);
        assert(pb.subrange(17, 17 + db.len() as int) =~= db);
        crate::numfmt::lemma_decimal_chars_injective(a, b);
    }
}

proof fn lemma_filter_keeps_members(ws: Seq<WindowView>, id: u32)
    ensures
        forall|i: int|
            0 <= i < without_id(ws, id).len() ==> exists|k: int|
                0 <= k < ws.len() && #[trigger] without_id(ws, id)[i] == ws[k],
        forall|i: int| 0 <= i < without_id(ws, id).len() ==> #[trigger] without_id(ws, id)[i].id_token != id,
    decreases ws.len(),
{
    reveal(Seq::filter);
    if ws.len() > 0 {
        let init = ws.drop_last();
        lemma_filter_keeps_members(init, id);
        let f = without_id(ws, id);
        let g = without_id(init, id);
        assert forall|i: int| 0 <= i < f.len() implies exists|k: int|
            0 <= k < ws.len() && #[trigger] f[i] == ws[k] by {
            if i < g.len() {
                let k = choose|k: int| 0 <= k < init.len() && #[trigger] g[i] == init[k];
                assert(f[i] == ws[k]);
            } else {
                assert(f[i] == ws[ws.len() - 1]);
            }
        }
    }
}

proof fn lemma_filter_keeps_well_formed(ws: Seq<WindowView>, id: u32, next: u32)
    requires
        ids_below(ws, next),
        ids_distinct(ws),
    ensures
        ids_below(without_id(ws, id), next),
        ids_distinct(without_id(ws, id)),
    decreases ws.len(),
{
    reveal(Seq::filter);
    lemma_filter_keeps_members(ws, id);
    if ws.len() > 0 {
        let init = ws.drop_last();
        assert forall|i: int, j: int| 0 <= i < j < init.len() implies #[trigger] init[i].id_token
            != #[trigger] init[j].id_token by {
            assert(init[i] == ws[i] && init[j] == ws[j]);
        }
        assert forall|i: int| 0 <= i < init.len() implies #[trigger] init[i].id_token < next by {
            assert(init[i] == ws[i]);
        }
        lemma_filter_keeps_well_formed(init, id, next);
        lemma_filter_keeps_members(init, id);
        let f = without_id(ws, id);
        let g = without_id(init, id);
        let n = ws.len() - 1;
        let last = ws[n];
        if last.id_token != id {
            assert(f == g.push(last));
            assert forall|i: int, j: int| 0 <= i < j < f.len() implies #[trigger] f[i].id_token
                != #[trigger] f[j].id_token by {
                if j == f.len() - 1 {
                    assert(f[i] == g[i]);
                    let k = choose|k: int| 0 <= k < init.len() && #[trigger] g[i] == init[k];
                    assert(0 <= k < n);
                    assert(g[i] == ws[k]);
                    assert(ws[k].id_token != ws[n].id_token);
                } else {
                    assert(f[i] == g[i]);
                    assert(f[j] == g[j]);
                }
            }
            assert forall|i: int| 0 <= i < f.len() implies #[trigger] f[i].id_token < next by {
                if i < g.len() {
                    assert(f[i] == g[i]);
                }
            }
        } else {
            assert(f == g);
        }
    }
}

/// Adding a window keeps the ids well formed: the new window takes the next
/// id, which no window had, and the next id moves past it.
pub proof fn lemma_add_keeps_ids_well_formed(c: ConfigView, exe_input: Seq<char>, name_input: Seq<char>)
    requires
        ids_well_formed(c),
        c.next_id < u32::MAX,
    ensures
        ids_well_formed(after_add(c, exe_input, name_input)),
{
    let d = after_add(c, exe_input, name_input);
    assert forall|i: int, j: int| 0 <= i < j < d.windows.len() implies #[trigger] d.windows[i].id_token
        != #[trigger] d.windows[j].id_token by {
        if j == c.windows.len() {
            assert(d.windows[i] == c.windows[i]);
        } else {
            assert(d.windows[i] == c.windows[i]);
            assert(d.windows[j] == c.windows[j]);
        }
    }
    assert forall|i: int| 0 <= i < d.windows.len() implies #[trigger] d.windows[i].id_token < d.next_id by {
        if i < c.windows.len() {
            assert(d.windows[i] == c.windows[i]);
        }
    }
}

/// Removing windows by id keeps the ids well formed, and leaves no window with
/// that id.
pub proof fn lemma_remove_keeps_ids_well_formed(c: ConfigView, id: u32)
    requires
        ids_well_formed(c),
    ensures
        ids_well_formed(ConfigView { windows: without_id(c.windows, id), next_id: c.next_id }),
        !has_window(without_id(c.windows, id), id),
{
    lemma_filter_keeps_well_formed(c.windows, id, c.next_id);
    lemma_filter_keeps_members(c.windows, id);
}

/// Resizing a window keeps the ids well formed.
pub proof fn lemma_resize_keeps_ids_well_formed(c: ConfigView, i: int, width_bits: u32, height_bits: u32)
    requires
        ids_well_formed(c),
        0 <= i < c.windows.len(),
    ensures
        ids_well_formed(
            ConfigView {
                windows: c.windows.update(i, resized(c.windows[i], width_bits, height_bits)),
                next_id: c.next_id,
            },
        ),
{
    let ws = c.windows.update(i, resized(c.windows[i], width_bits, height_bits));
    assert forall|k: int| 0 <= k < ws.len() implies #[trigger] ws[k].id_token == c.windows[k].id_token by {}
}

/// Removing the window that was just added gives back the windows that were
/// there before, where no window had the id that the new one got.
pub proof fn lemma_remove_undoes_add(c: ConfigView, exe_input: Seq<char>, name_input: Seq<char>)
    requires
        !has_window(c.windows, c.next_id),
    ensures
        without_id(after_add(c, exe_input, name_input).windows, c.next_id) == c.windows,
{
    lemma_without_absent_id(c.windows, c.next_id);
    reveal(Seq::filter);
    let ws = after_add(c, exe_input, name_input).windows;
    assert(ws.drop_last() =~= c.windows);
}

proof fn lemma_without_absent_id(ws: Seq<WindowView>, id: u32)
    requires
        !has_window(ws, id),
    ensures
        without_id(ws, id) == ws,
    decreases ws.len(),
{
    reveal(Seq::filter);
    if ws.len() > 0 {
        let init = ws.drop_last();
        assert forall|i: int| 0 <= i < init.len() implies #[trigger] init[i].id_token != id by {
            assert(init[i] == ws[i]);
        }
        lemma_without_absent_id(init, id);
        assert(ws[ws.len() - 1].id_token != id);
        assert(init.push(ws.last()) =~= ws);
    }
}

/// What a new window holds, in terms of the inputs alone: one shortcut; its
/// executable path is the executable input with only the whitespace at its two
/// ends removed, whatever the name input; a typed name becomes, with only its
/// edge whitespace removed and no length limit, both the title and the
/// shortcut's name; an empty name gives the default title; the id, the default
/// geometry and the icon path of that id complete it.
pub proof fn lemma_new_window_content(id: u32, exe_input: Seq<char>, name_input: Seq<char>)
    ensures
        ({
            let w = new_window_view(id, exe_input, name_input);
            &&& w.id_token == id
            &&& w.shortcuts.len() == 1
            &&& is_whitespace_trim_of(w.shortcuts[0].exe_path, exe_input)
            &&& name_input.len() > 0 ==> is_whitespace_trim_of(w.title, name_input)
            &&& name_input.len() == 0 ==> w.title == default_title_chars()
            &&& w.shortcuts[0].name == w.title
            &&& w.shortcuts[0].icon_png_path == icon_path_chars(id as nat)
            &&& w.pos_x_bits == DEFAULT_POS_BITS && w.pos_y_bits == DEFAULT_POS_BITS
            &&& w.width_bits == DEFAULT_WIDTH_BITS && w.height_bits == DEFAULT_HEIGHT_BITS
        }),
{
    lemma_trim_removes_only_edge_whitespace(exe_input);
    lemma_trim_removes_only_edge_whitespace(name_input);
}

/// The executable path of a new window does not depend on the name input.
pub proof fn lemma_new_window_exe_path_ignores_name(
    id: u32,
    exe_input: Seq<char>,
    name_a: Seq<char>,
    name_b: Seq<char>,
)
    ensures
        new_window_view(id, exe_input, name_a).shortcuts[0].exe_path == new_window_view(
            id,
            exe_input,
            name_b,
        ).shortcuts[0].exe_path,
{
}

/// Resizing stores exactly the given size and changes nothing else.
pub proof fn lemma_resized_content(w: WindowView, width_bits: u32, height_bits: u32)
    ensures
        resized(w, width_bits, height_bits).width_bits == width_bits,
        resized(w, width_bits, height_bits).height_bits == height_bits,
        resized(w, width_bits, height_bits).id_token == w.id_token,
        resized(w, width_bits, height_bits).title == w.title,
        resized(w, width_bits, height_bits).pos_x_bits == w.pos_x_bits,
        resized(w, width_bits, height_bits).pos_y_bits == w.pos_y_bits,
        resized(w, width_bits, height_bits).shortcuts == w.shortcuts,
{
}

/// The cache path of the icon of window `id`.
pub fn icon_path(id: u32) -> (s: String)
    ensures
        s@ == icon_path_chars(id as nat),
{
    let mut s = String::new();
    proof {
        reveal_strlit("_icon_cache/icon_");
        reveal_strlit(".png");
    }
    s.append("_icon_cache/icon_");
    push_decimal(&mut s, id as u128);
    s.append(".png");
    s
}

impl Default for AppConfig {
    /// The configuration with no windows, whose first window gets id 0.
    fn default() -> (c: AppConfig)
        ensures
            c@.windows == Seq::<WindowView>::empty(),
            c@.next_id == 0,
    {
        let c = AppConfig { windows: Vec::new(), next_id: 0 };
        assert(c@.windows =~= Seq::<WindowView>::empty());
        c
    }
}

impl AppConfig {
    /// Adds the canvas window that the control panel creates from its inputs,
    /// provided the executable path input is not empty: the window gets the
    /// next id, the trimmed display name as title (or a default title), the
    /// default geometry and one shortcut to the trimmed executable path, with
    /// its icon cached under the window's id. Returns whether it was added.
    pub fn add_shortcut_window(&mut self, exe_input: &str, name_input: &str) -> (added: bool)
        requires
            exe_input@.len() > 0 ==> old(self).next_id < u32::MAX,
        ensures
            added == (exe_input@.len() > 0),
            added ==> final(self)@.windows == old(self)@.windows.push(
                new_window_view(old(self).next_id, exe_input@, name_input@),
            ),
            added ==> final(self)@.next_id == old(self).next_id + 1,
            !added ==> final(self)@ == old(self)@,
            added ==> ({
                let w = final(self)@.windows.last();
                &&& w.id_token == old(self).next_id
                &&& w.shortcuts.len() == 1
                &&& is_whitespace_trim_of(w.shortcuts[0].exe_path, exe_input@)
                &&& name_input@.len() > 0 ==> is_whitespace_trim_of(w.title, name_input@)
                &&& name_input@.len() == 0 ==> w.title == default_title_chars()
                &&& w.shortcuts[0].name == w.title
            }),
    {
        if exe_input.is_empty() {
            return false;
        }
        let id = self.next_id;
        let target_exe = trim_whitespace(exe_input);
        let target_name = if name_input.is_empty() {
            proof {
                reveal_strlit("Shortcut Layer");
            }
            let t = "Shortcut Layer".to_owned();
            assert(t@ =~= default_title_chars());
            t
        } else {
            trim_whitespace(name_input)
        };
        assert(target_name@ == window_title_chars(name_input@));
        let title = target_name.clone();
        let shortcut = ShortcutConfig {
            name: target_name,
            exe_path: target_exe,
            icon_png_path: icon_path(id),
        };
        let mut shortcuts = Vec::new();
        shortcuts.push(shortcut);
        assert(shortcuts@ =~= seq![shortcut]);
        let window = WindowConfig {
            id_token: id,
            title,
            pos_x_bits: DEFAULT_POS_BITS,
            pos_y_bits: DEFAULT_POS_BITS,
            width_bits: DEFAULT_WIDTH_BITS,
            height_bits: DEFAULT_HEIGHT_BITS,
            shortcuts,
        };
        assert(window@.shortcuts =~= new_window_view(id, exe_input@, name_input@).shortcuts);
        assert(window@ == new_window_view(id, exe_input@, name_input@));
        let ghost before = self@.windows;
        self.windows.push(window);
        self.next_id = id + 1;
        assert(self@.windows =~= before.push(new_window_view(id, exe_input@, name_input@)));
        proof {
            lemma_new_window_content(id, exe_input@, name_input@);
        }
        true
    }

    /// Removes every window with id `id`, keeping the others in order.
    pub fn remove_window(&mut self, id: u32)
        ensures
            final(self)@.windows == without_id(old(self)@.windows, id),
            final(self)@.next_id == old(self)@.next_id,
    {
        let ghost ov = old(self)@.windows;
        let ghost pred = |w: WindowView| w.id_token != id;
        let mut i: usize = 0;
        let ghost mut k: int = 0;
        assert(ov.subrange(0, 0).filter(pred) =~= Seq::<WindowView>::empty());
        assert(self@.windows.subrange(0, 0) =~= Seq::<WindowView>::empty());
        assert(self@.windows.subrange(0, self@.windows.len() as int) =~= ov.subrange(0, ov.len() as int));
        while i < self.windows.len()
            invariant
                0 <= k <= ov.len(),
                i <= self.windows.len(),
                self@.next_id == old(self)@.next_id,
                self@.windows.subrange(0, i as int) == ov.subrange(0, k).filter(pred),
                self@.windows.subrange(i as int, self@.windows.len() as int) == ov.subrange(k, ov.len() as int),
                ov == old(self)@.windows,
                pred == (|w: WindowView| w.id_token != id),
            decreases self.windows.len() - i,
        {
            let ghost cur = self@.windows;
            assert(ov.subrange(k, ov.len() as int).len() == cur.len() - i);
            assert(cur.subrange(i as int, cur.len() as int)[0] == cur[i as int]);
            assert(ov.subrange(k, ov.len() as int)[0] == ov[k]);
            assert(ov.subrange(0, k + 1).drop_last() =~= ov.subrange(0, k));
            assert(ov.subrange(0, k + 1).last() == ov[k]);
            assert(cur.subrange(i + 1, cur.len() as int) =~= cur.subrange(i as int, cur.len() as int).drop_first());
            assert(ov.subrange(k + 1, ov.len() as int) =~= ov.subrange(k, ov.len() as int).drop_first());
            if self.windows[i].id_token == id {
                assert(cur[i as int] == ov[k]);
                assert(!pred(ov[k]));
                assert(ov.subrange(0, k + 1).filter(pred) == ov.subrange(0, k).filter(pred)) by {
                    reveal(Seq::filter);
                }
                let _removed = self.windows.remove(i);
                proof {
                    let now = self@.windows;
                    assert(now =~= cur.remove(i as int));
                    assert(now.subrange(0, i as int) =~= cur.subrange(0, i as int));
                    assert(now.subrange(i as int, now.len() as int) =~= ov.subrange(k + 1, ov.len() as int));
                    k = k + 1;
                }
            } else {
                proof {
                    assert(cur[i as int] == ov[k]);
                    assert(pred(ov[k]));
                    assert(ov.subrange(0, k + 1).filter(pred) == ov.subrange(0, k).filter(pred).push(ov[k])) by {
                        reveal(Seq::filter);
                    }
                    assert(cur.subrange(0, i + 1) =~= cur.subrange(0, i as int).push(cur[i as int]));
                    assert(cur.subrange(i + 1, cur.len() as int) =~= ov.subrange(k + 1, ov.len() as int));
                    k = k + 1;
                }
                i = i + 1;
            }
        }
        proof {
            assert(self@.windows.subrange(0, i as int) =~= self@.windows);
            assert(ov.subrange(k, ov.len() as int).len() == 0);
            assert(ov.subrange(0, k) =~= ov);
        }
    }

    /// Stores a new size for the first window with id `id`, if there is one;
    /// returns whether there was.
    pub fn set_window_size(&mut self, id: u32, width_bits: u32, height_bits: u32) -> (found: bool)
        ensures
            found == has_window(old(self)@.windows, id),
            found ==> exists|i: int|
                is_first_with_id(old(self)@.windows, id, i) && final(self)@.windows == old(
                    self,
                )@.windows.update(i, resized(old(self)@.windows[i], width_bits, height_bits)),
            !found ==> final(self)@ == old(self)@,
            final(self)@.next_id == old(self)@.next_id,
            found ==> exists|i: int|
                {
                    &&& is_first_with_id(old(self)@.windows, id, i)
                    &&& final(self)@.windows.len() == old(self)@.windows.len()
                    &&& final(self)@.windows[i].width_bits == width_bits
                    &&& final(self)@.windows[i].height_bits == height_bits
                    &&& final(self)@.windows[i].id_token == id
                    &&& final(self)@.windows[i].title == old(self)@.windows[i].title
                    &&& final(self)@.windows[i].pos_x_bits == old(self)@.windows[i].pos_x_bits
                    &&& final(self)@.windows[i].pos_y_bits == old(self)@.windows[i].pos_y_bits
                    &&& final(self)@.windows[i].shortcuts == old(self)@.windows[i].shortcuts
                    &&& forall|k: int|
                        0 <= k < old(self)@.windows.len() && k != i ==> #[trigger] final(self)@.windows[k]
                            == old(self)@.windows[k]
                },
    {
        let mut i: usize = 0;
        while i < self.windows.len()
            invariant
                i <= self.windows.len(),
                self.windows@ == old(self).windows@,
                self.next_id == old(self).next_id,
                forall|k: int| 0 <= k < i ==> #[trigger] self@.windows[k].id_token != id,
            decreases self.windows.len() - i,
        {
            if self.windows[i].id_token == id {
                let ghost before = self@.windows;
                self.windows[i].width_bits = width_bits;
                self.windows[i].height_bits = height_bits;
                assert(self@.windows =~= before.update(i as int, resized(before[i as int], width_bits, height_bits)));
                assert(is_first_with_id(before, id, i as int));
                return true;
            }
            i = i + 1;
        }
        assert(self@.windows == old(self)@.windows);
        false
    }
}

} // verus!
