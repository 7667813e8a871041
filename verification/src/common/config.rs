//! Application configuration: key and mouse bindings, recent files and
//! device profiles.

use vstd::prelude::*;
use crate::text::{chars_equal, chars_of};

verus! {

// ---------------------------------------------------------------------------
// Key bindings
// ---------------------------------------------------------------------------

/// Identifies one user-configurable key action.
#[derive(Debug, Clone, Copy, PartialEq, Eq, Structural)]
pub enum BindingId {
    TempPan,
    ToolSelect,
    ToolPan,
    ToolRect,
    ToolEllipse,
    ToolLine,
    ToolPolyline,
    DeleteSelected,
    ZoomIn,
    ZoomOut,
    ZoomReset,
}

/// Position of an action in [`BindingId::all`].
pub open spec fn binding_index(id: BindingId) -> int {
    match id {
        BindingId::TempPan => 0,
        BindingId::ToolSelect => 1,
        BindingId::ToolPan => 2,
        BindingId::ToolRect => 3,
        BindingId::ToolEllipse => 4,
        BindingId::ToolLine => 5,
        BindingId::ToolPolyline => 6,
        BindingId::DeleteSelected => 7,
        BindingId::ZoomIn => 8,
        BindingId::ZoomOut => 9,
        BindingId::ZoomReset => 10,
    }
}

impl BindingId {
    /// Display name of the action.
    pub fn label(self) -> (r: &'static str)
        ensures
            r@ == (match self {
                BindingId::TempPan => "Pan (hold)"@,
                BindingId::ToolSelect => "Select tool"@,
                BindingId::ToolPan => "Pan tool"@,
                BindingId::ToolRect => "Rectangle tool"@,
                BindingId::ToolEllipse => "Ellipse tool"@,
                BindingId::ToolLine => "Line tool"@,
                BindingId::ToolPolyline => "Polyline tool"@,
                BindingId::DeleteSelected => "Delete selected"@,
                BindingId::ZoomIn => "Zoom in"@,
                BindingId::ZoomOut => "Zoom out"@,
                BindingId::ZoomReset => "Zoom reset"@,
            }),
    {
        match self {
            BindingId::TempPan => "Pan (hold)",
            BindingId::ToolSelect => "Select tool",
            BindingId::ToolPan => "Pan tool",
            BindingId::ToolRect => "Rectangle tool",
            BindingId::ToolEllipse => "Ellipse tool",
            BindingId::ToolLine => "Line tool",
            BindingId::ToolPolyline => "Polyline tool",
            BindingId::DeleteSelected => "Delete selected",
            BindingId::ZoomIn => "Zoom in",
            BindingId::ZoomOut => "Zoom out",
            BindingId::ZoomReset => "Zoom reset",
        }
    }

    /// All actions, in the order the preferences list them.
    pub fn all() -> (r: &'static [BindingId])
        ensures
            r@.len() == 11,
            forall|i: int| 0 <= i < 11 ==> binding_index(#[trigger] r@[i]) == i,
    {
        &[
            BindingId::TempPan,
            BindingId::ToolSelect,
            BindingId::ToolPan,
            BindingId::ToolRect,
            BindingId::ToolEllipse,
            BindingId::ToolLine,
            BindingId::ToolPolyline,
            BindingId::DeleteSelected,
            BindingId::ZoomIn,
            BindingId::ZoomOut,
            BindingId::ZoomReset,
        ]
    }
}

/// User-configurable keyboard bindings, stored as display strings
/// (`"Space"`, `"r"`, ...).
#[derive(Debug, Clone)]
pub struct KeyBindings {
    pub temp_pan: String,
    pub tool_select: String,
    pub tool_pan: String,
    pub tool_rect: String,
    pub tool_ellipse: String,
    pub tool_line: String,
    pub tool_polyline: String,
    pub delete_selected: String,
    pub zoom_in: String,
    pub zoom_out: String,
    pub zoom_reset: String,
}

impl View for KeyBindings {
    /// The bound keys, indexed by [`binding_index`].
    type V = Seq<Seq<char>>;

    open spec fn view(&self) -> Seq<Seq<char>> {
        seq![
            self.temp_pan@,
            self.tool_select@,
            self.tool_pan@,
            self.tool_rect@,
            self.tool_ellipse@,
            self.tool_line@,
            self.tool_polyline@,
            self.delete_selected@,
            self.zoom_in@,
            self.zoom_out@,
            self.zoom_reset@,
        ]
    }
}

impl Default for KeyBindings {
    fn default() -> (r: Self)
        ensures
            r@ == seq![
                "Space"@,
                "s"@,
                "p"@,
                "r"@,
                "e"@,
                "l"@,
                Seq::<char>::empty(),
                "Delete"@,
                "="@,
                "-"@,
                "0"@,
            ],
    {
        let r = KeyBindings {
            temp_pan: "Space".to_owned(),
            tool_select: "s".to_owned(),
            tool_pan: "p".to_owned(),
            tool_rect: "r".to_owned(),
            tool_ellipse: "e".to_owned(),
            tool_line: "l".to_owned(),
            tool_polyline: String::new(),
            delete_selected: "Delete".to_owned(),
            zoom_in: "=".to_owned(),
            zoom_out: "-".to_owned(),
            zoom_reset: "0".to_owned(),
        };
        assert(r@ =~= seq![
            "Space"@,
            "s"@,
            "p"@,
            "r"@,
            "e"@,
            "l"@,
            Seq::<char>::empty(),
            "Delete"@,
            "="@,
            "-"@,
            "0"@,
        ]);
        r
    }
}

impl KeyBindings {
    /// The key bound to an action.
    pub fn get(&self, id: BindingId) -> (r: &str)
        ensures
            r@ == self@[binding_index(id)],
    {
        match id {
            BindingId::TempPan => self.temp_pan.as_str(),
            BindingId::ToolSelect => self.tool_select.as_str(),
            BindingId::ToolPan => self.tool_pan.as_str(),
            BindingId::ToolRect => self.tool_rect.as_str(),
            BindingId::ToolEllipse => self.tool_ellipse.as_str(),
            BindingId::ToolLine => self.tool_line.as_str(),
            BindingId::ToolPolyline => self.tool_polyline.as_str(),
            BindingId::DeleteSelected => self.delete_selected.as_str(),
            BindingId::ZoomIn => self.zoom_in.as_str(),
            BindingId::ZoomOut => self.zoom_out.as_str(),
            BindingId::ZoomReset => self.zoom_reset.as_str(),
        }
    }

    /// Binds a key to an action; the other actions keep their keys.
    pub fn set(&mut self, id: BindingId, value: String)
        ensures
            final(self)@ == old(self)@.update(binding_index(id), value@),
    {
        let ghost v = value@;
        match id {
            BindingId::TempPan => self.temp_pan = value,
            BindingId::ToolSelect => self.tool_select = value,
            BindingId::ToolPan => self.tool_pan = value,
            BindingId::ToolRect => self.tool_rect = value,
            BindingId::ToolEllipse => self.tool_ellipse = value,
            BindingId::ToolLine => self.tool_line = value,
            BindingId::ToolPolyline => self.tool_polyline = value,
            BindingId::DeleteSelected => self.delete_selected = value,
            BindingId::ZoomIn => self.zoom_in = value,
            BindingId::ZoomOut => self.zoom_out = value,
            BindingId::ZoomReset => self.zoom_reset = value,
        }
        assert(self@ =~= old(self)@.update(binding_index(id), v));
    }
}

/// Reading a binding back after setting it gives the value set, and setting
/// one action leaves every other action's key as it was.
pub proof fn lemma_binding_set_get(keys: Seq<Seq<char>>, id: BindingId, other: BindingId, value: Seq<
    char,
>)
    requires
        keys.len() == 11,
    ensures
        keys.update(binding_index(id), value)[binding_index(id)] == value,
        other != id ==> keys.update(binding_index(id), value)[binding_index(other)]
            == keys[binding_index(other)],
{
}

// ---------------------------------------------------------------------------
// Mouse bindings
// ---------------------------------------------------------------------------

/// What the scroll wheel does on the canvas.
#[derive(Debug, Clone, Copy, PartialEq, Eq, Structural)]
pub enum ScrollAction {
    Zoom,
    PanVertical,
}

impl Default for ScrollAction {
    fn default() -> (r: Self)
        ensures
            r == ScrollAction::Zoom,
    {
        ScrollAction::Zoom
    }
}

impl ScrollAction {
    /// Display name.
    pub fn label(&self) -> (r: &'static str)
        ensures
            r@ == (match *self {
                ScrollAction::Zoom => "Zoom"@,
                ScrollAction::PanVertical => "Pan vertical"@,
            }),
    {
        match self {
            ScrollAction::Zoom => "Zoom",
            ScrollAction::PanVertical => "Pan vertical",
        }
    }
}

/// User-configurable mouse bindings.
#[derive(Debug, Clone, Copy, PartialEq, Eq, Structural)]
pub struct MouseBindings {
    /// What the scroll wheel does.
    pub scroll: ScrollAction,
}

impl Default for MouseBindings {
    fn default() -> (r: Self)
        ensures
            r.scroll == ScrollAction::Zoom,
    {
        MouseBindings { scroll: ScrollAction::Zoom }
    }
}

// ---------------------------------------------------------------------------
// Application settings and recent files
// ---------------------------------------------------------------------------

/// How many recent files are kept.
pub const MAX_RECENT_FILES: usize = 10;

/// General application settings.
#[derive(Debug, Clone)]
pub struct AppConfig {
    pub last_directory: String,
    pub recent_files: Vec<String>,
    pub theme: String,
}

/// `files` without the entries equal to `path`, order kept.
pub open spec fn without(files: Seq<Seq<char>>, path: Seq<char>) -> Seq<Seq<char>>
    decreases files.len(),
{
    if files.len() == 0 {
        seq![]
    } else {
        let rest = without(files.drop_last(), path);
        if files.last() == path {
            rest
        } else {
            rest.push(files.last())
        }
    }
}

/// The recent-file list after opening `path`: `path` first, then the
/// previous entries other than `path`, at most ten in all.
pub open spec fn with_recent(files: Seq<Seq<char>>, path: Seq<char>) -> Seq<Seq<char>> {
    let l = seq![path] + without(files, path);
    if l.len() > MAX_RECENT_FILES {
        l.take(MAX_RECENT_FILES as int)
    } else {
        l
    }
}

/// The views of a list of strings.
pub open spec fn views_of(v: Seq<String>) -> Seq<Seq<char>> {
    v.map_values(|s: String| s@)
}

impl AppConfig {
    /// Records `path` as the most recently used file.
    pub fn add_recent_file(&mut self, path: &str)
        ensures
            views_of(final(self).recent_files@) == with_recent(
                views_of(old(self).recent_files@),
                path@,
            ),
            final(self).last_directory == old(self).last_directory,
            final(self).theme == old(self).theme,
    {
        let ghost old_files = views_of(self.recent_files@);
        let target: Vec<char> = chars_of(path);
        let mut kept: Vec<String> = Vec::new();
        kept.push(path.to_owned());
        let mut k: usize = 0;
        while k < self.recent_files.len()
            invariant
                k <= self.recent_files@.len(),
                old_files == views_of(self.recent_files@),
                target@ == path@,
                views_of(kept@) == seq![path@] + without(old_files.take(k as int), path@),
            decreases self.recent_files@.len() - k,
        {
            let ghost t1 = old_files.take(k + 1);
            assert(t1.drop_last() =~= old_files.take(k as int));
            assert(t1.last() == self.recent_files@[k as int]@);
            let entry: Vec<char> = chars_of(self.recent_files[k].as_str());
            assert(t1.last() == entry@);
            assert(without(t1, path@) == (if entry@ == path@ {
                without(old_files.take(k as int), path@)
            } else {
                without(old_files.take(k as int), path@).push(entry@)
            }));
            let ghost before = views_of(kept@);
            if !chars_equal(&entry, &target) {
                kept.push(self.recent_files[k].clone());
                assert(views_of(kept@) =~= before.push(entry@));
                assert(views_of(kept@) =~= seq![path@] + without(old_files.take(k + 1), path@));
            } else {
                assert(without(old_files.take(k + 1), path@) == without(
                    old_files.take(k as int),
                    path@,
                ));
            }
            k = k + 1;
        }
        assert(old_files.take(self.recent_files@.len() as int) =~= old_files);
        kept.truncate(MAX_RECENT_FILES);
        assert(views_of(kept@) =~= with_recent(old_files, path@));
        self.recent_files = kept;
    }
}

/// `path` does not occur in `without(files, path)`, and what does occur
/// there occurs in `files`.
pub proof fn lemma_without(files: Seq<Seq<char>>, path: Seq<char>)
    ensures
        !without(files, path).contains(path),
        forall|x: Seq<char>| #[trigger] without(files, path).contains(x) ==> files.contains(x),
        files.no_duplicates() ==> without(files, path).no_duplicates(),
    decreases files.len(),
{
    if files.len() > 0 {
        let rest = files.drop_last();
        lemma_without(rest, path);
        assert forall|x: Seq<char>| #[trigger] without(files, path).contains(x) implies files.contains(
            x,
        ) by {
            if without(rest, path).contains(x) {
                assert(rest.contains(x));
                let i = choose|i: int| 0 <= i < rest.len() && rest[i] == x;
                assert(files[i] == x);
            } else {
                assert(files[files.len() - 1] == x);
            }
        }
        if files.no_duplicates() {
            assert(rest.no_duplicates()) by {
                assert forall|i: int, j: int|
                    0 <= i < rest.len() && 0 <= j < rest.len() && i != j implies rest[i]
                    != rest[j] by {
                    assert(files[i] == rest[i] && files[j] == rest[j]);
                }
            }
            if files.last() != path {
                assert(!rest.contains(files.last())) by {
                    if rest.contains(files.last()) {
                        let i = choose|i: int| 0 <= i < rest.len() && rest[i] == files.last();
                        assert(files[i] == files[files.len() - 1]);
                    }
                }
                assert(!without(rest, path).contains(files.last()));
            }
        }
    }
}

/// After a file is opened it heads the recent-file list, the list holds at
/// most ten entries, and a list without duplicates stays without duplicates.
pub proof fn lemma_recent_files(files: Seq<Seq<char>>, path: Seq<char>)
    ensures
        with_recent(files, path)[0] == path,
        with_recent(files, path).len() <= MAX_RECENT_FILES,
        files.no_duplicates() ==> with_recent(files, path).no_duplicates(),
        forall|x: Seq<char>| #[trigger]
            with_recent(files, path).contains(x) ==> x == path || files.contains(x),
{
    lemma_without(files, path);
    let w = without(files, path);
    let l = seq![path] + w;
    let r = with_recent(files, path);
    assert(l[0] == path);
    assert forall|x: Seq<char>| #[trigger] r.contains(x) implies x == path || files.contains(x) by {
        let i = choose|i: int| 0 <= i < r.len() && r[i] == x;
        assert(l[i] == x);
        if i > 0 {
            assert(w[i - 1] == x);
            assert(w.contains(x));
        }
    }
    if files.no_duplicates() {
        assert forall|i: int, j: int| 0 <= i < r.len() && 0 <= j < r.len() && i != j implies r[i]
            != r[j] by {
            assert(r[i] == l[i] && r[j] == l[j]);
            if i == 0 {
                assert(w[j - 1] == l[j]);
                assert(w.contains(l[j]));
            } else if j == 0 {
                assert(w[i - 1] == l[i]);
                assert(w.contains(l[i]));
            } else {
                assert(w[i - 1] == l[i] && w[j - 1] == l[j]);
            }
        }
    }
}

// ---------------------------------------------------------------------------
// Device profiles
// ---------------------------------------------------------------------------

/// The stored device profiles and which one is active. The profile type is
/// left open: it carries the port, baud rate, machine type and work area.
#[derive(Debug, Clone)]
pub struct DeviceConfig<P> {
    /// Index of the currently active profile.
    pub active_profile: usize,
    /// All stored profiles (at least one is always present).
    pub profiles: Vec<P>,
}

impl<P> DeviceConfig<P> {
    /// The index actually used for the active profile: the stored index,
    /// clamped to the last profile.
    pub open spec fn active_index(&self) -> int {
        if self.active_profile < self.profiles@.len() {
            self.active_profile as int
        } else {
            self.profiles@.len() - 1
        }
    }

    /// A configuration holding a single profile, active.
    pub fn with_profile(profile: P) -> (r: Self)
        ensures
            r.active_profile == 0,
            r.profiles@ == seq![profile],
    {
        let mut profiles: Vec<P> = Vec::new();
        profiles.push(profile);
        DeviceConfig { active_profile: 0, profiles }
    }

    /// The active profile.
    pub fn active(&self) -> (r: &P)
        requires
            self.profiles@.len() > 0,
        ensures
            *r == self.profiles@[self.active_index()],
    {
        let last: usize = self.profiles.len() - 1;
        let idx: usize = if self.active_profile < last {
            self.active_profile
        } else {
            last
        };
        &self.profiles[idx]
    }

    /// The active profile, for editing.
    pub fn active_mut(&mut self) -> (r: &mut P)
        requires
            old(self).profiles@.len() > 0,
        ensures
            *r == old(self).profiles@[old(self).active_index()],
            final(self).profiles@ == old(self).profiles@.update(old(self).active_index(), *final(r)),
            final(self).active_profile == old(self).active_profile,
    {
        let last: usize = self.profiles.len() - 1;
        let idx: usize = if self.active_profile < last {
            self.active_profile
        } else {
            last
        };
        &mut self.profiles[idx]
    }
}

} // verus!
