use vstd::prelude::*;

use crate::catalog::views;
use crate::config::{default_config, strings_view, Config, ConfigView};
use crate::desktop::{AppEntry, AppEntryView};
use crate::text::{chars_of, string_of, trim, trim_chars};

verus! {

/// Which sub-view is shown inside the popup.
#[derive(Clone, Copy, Debug, PartialEq, Eq, Structural)]
pub enum PopupView {
    Grid,
    Settings,
}

/// What the applet is told: user input, the settings service and the
/// periodic check of the application directories.
#[derive(Clone, Debug)]
pub enum Message {
    /// The panel button was pressed; the number names the popup to open if
    /// none is open.
    TogglePopup(u64),
    PopupClosed(u64),
    UpdateConfig(Config),
    LaunchApp(usize),
    SetView(PopupView),
    SetIconSize(u32),
    SetCellWidth(u32),
    SetCellHeight(u32),
    SetColSpacing(u32),
    SetRowSpacing(u32),
    SetPopupHeight(u32),
    SetMinCols(u32),
    SetMaxCols(u32),
    SetShowLabels(bool),
    HiddenAppInput(String),
    AddHiddenApp,
    RemoveHiddenApp(String),
    ResetConfig,
    OpenDonationLink,
    /// The fingerprint that the application directories have now.
    CheckApps(u64),
}

/// What is to be done with the popup window.
#[derive(Clone, Copy, Debug, PartialEq, Eq, Structural)]
pub enum PopupAction {
    Keep,
    Open(u64),
    Close(u64),
    Resize(u64),
}

/// The work that an update leaves to be done outside the model, in this
/// order: store the configuration, start a command, open the donation page,
/// reload the application list, then act on the popup.
#[derive(Debug)]
pub struct Effects {
    pub popup: PopupAction,
    pub save_config: bool,
    pub reload_apps: bool,
    /// A shell command line to start.
    pub launch: Option<String>,
    pub open_donation_link: bool,
}

pub struct EffectsView {
    pub popup: PopupAction,
    pub save_config: bool,
    pub reload_apps: bool,
    pub launch: Option<Seq<char>>,
    pub open_donation_link: bool,
}

impl View for Effects {
    type V = EffectsView;

    open spec fn view(&self) -> EffectsView {
        EffectsView {
            popup: self.popup,
            save_config: self.save_config,
            reload_apps: self.reload_apps,
            launch: match self.launch {
                Some(s) => Some(s@),
                None => None,
            },
            open_donation_link: self.open_donation_link,
        }
    }
}

/// The applet's state.
pub struct AppModel {
    popup: Option<u64>,
    config: Config,
    /// Installed applications, sorted alphabetically.
    apps: Vec<AppEntry>,
    /// Which sub-view is currently shown inside the popup.
    popup_view: PopupView,
    /// Live text in the "add hidden app pattern" field.
    hidden_app_input: String,
    /// Fingerprint of the app directories at the last load.
    apps_stamp: u64,
}

pub struct ModelView {
    pub popup: Option<u64>,
    pub config: ConfigView,
    pub apps: Seq<AppEntryView>,
    pub popup_view: PopupView,
    pub hidden_app_input: Seq<char>,
    pub apps_stamp: u64,
}

impl View for AppModel {
    type V = ModelView;

    closed spec fn view(&self) -> ModelView {
        ModelView {
            popup: self.popup,
            config: self.config@,
            apps: views(self.apps@),
            popup_view: self.popup_view,
            hidden_app_input: self.hidden_app_input@,
            apps_stamp: self.apps_stamp,
        }
    }
}

pub open spec fn clamp(v: u32, lo: u32, hi: u32) -> u32 {
    if v < lo {
        lo
    } else if v > hi {
        hi
    } else {
        v
    }
}

pub open spec fn no_effects() -> EffectsView {
    EffectsView {
        popup: PopupAction::Keep,
        save_config: false,
        reload_apps: false,
        launch: None,
        open_donation_link: false,
    }
}

/// Store the configuration, and resize the popup if `resize` and one is open.
pub open spec fn saved(m: ModelView, resize: bool) -> EffectsView {
    EffectsView {
        popup: if resize {
            match m.popup {
                Some(p) => PopupAction::Resize(p),
                None => PopupAction::Keep,
            }
        } else {
            PopupAction::Keep
        },
        save_config: true,
        ..no_effects()
    }
}

/// Store the configuration and reload the application list.
pub open spec fn saved_and_reloaded() -> EffectsView {
    EffectsView { save_config: true, reload_apps: true, ..no_effects() }
}

pub open spec fn with_config(m: ModelView, c: ConfigView) -> ModelView {
    ModelView { config: c, ..m }
}

/// `s` without any element equal to `x`.
pub open spec fn without(s: Seq<Seq<char>>, x: Seq<char>) -> Seq<Seq<char>>
    decreases s.len(),
{
    if s.len() == 0 {
        s
    } else if s.last() == x {
        without(s.drop_last(), x)
    } else {
        without(s.drop_last(), x).push(s.last())
    }
}

/// The state with the popup closed, and what is to be done with the window:
/// close the popup that was open, or nothing.
pub open spec fn popup_closed(m: ModelView) -> (ModelView, PopupAction) {
    (
        ModelView { popup: None, ..m },
        match m.popup {
            Some(p) => PopupAction::Close(p),
            None => PopupAction::Keep,
        },
    )
}

/// The state after `msg` and the work it leaves to be done.
pub open spec fn step(m: ModelView, msg: Message) -> (ModelView, EffectsView) {
    let c = m.config;
    match msg {
        Message::TogglePopup(id) => match m.popup {
            Some(p) => (
                ModelView { popup: None, ..m },
                EffectsView { popup: PopupAction::Close(p), ..no_effects() },
            ),
            None => (
                ModelView { popup: Some(id), popup_view: PopupView::Grid, ..m },
                EffectsView { popup: PopupAction::Open(id), ..no_effects() },
            ),
        },
        Message::PopupClosed(id) => (
            if m.popup == Some(id) {
                ModelView { popup: None, ..m }
            } else {
                m
            },
            no_effects(),
        ),
        Message::UpdateConfig(new_config) => (
            with_config(m, new_config@),
            EffectsView { reload_apps: new_config@.hidden_apps != c.hidden_apps, ..no_effects() },
        ),
        Message::LaunchApp(index) => (
            ModelView { popup: None, ..m },
            EffectsView {
                popup: match m.popup {
                    Some(p) => PopupAction::Close(p),
                    None => PopupAction::Keep,
                },
                launch: if index < m.apps.len() {
                    Some(m.apps[index as int].exec_clean)
                } else {
                    None
                },
                ..no_effects()
            },
        ),
        Message::SetView(v) => (ModelView { popup_view: v, ..m }, no_effects()),
        Message::SetIconSize(v) => (
            with_config(m, ConfigView { icon_size: clamp(v, 16, 96), ..c }),
            saved(m, false),
        ),
        Message::SetCellWidth(v) => (
            with_config(m, ConfigView { cell_width: clamp(v, 48, 128), ..c }),
            saved(m, true),
        ),
        Message::SetCellHeight(v) => (
            with_config(m, ConfigView { cell_height: clamp(v, 48, 256), ..c }),
            saved(m, false),
        ),
        Message::SetColSpacing(v) => (
            with_config(m, ConfigView { col_spacing: clamp(v, 0, 64), ..c }),
            saved(m, true),
        ),
        Message::SetRowSpacing(v) => (
            with_config(m, ConfigView { row_spacing: clamp(v, 0, 64), ..c }),
            saved(m, false),
        ),
        Message::SetPopupHeight(v) => (
            with_config(m, ConfigView { popup_height: clamp(v, 200, 900), ..c }),
            saved(m, true),
        ),
        Message::SetMinCols(v) => (
            with_config(m, ConfigView { min_cols: clamp(v, 1, 8), ..c }),
            saved(m, true),
        ),
        Message::SetMaxCols(v) => (
            with_config(m, ConfigView { max_cols: clamp(v, 0, 8), ..c }),
            saved(m, true),
        ),
        Message::SetShowLabels(v) => (
            with_config(m, ConfigView { show_labels: v, ..c }),
            saved(m, false),
        ),
        Message::HiddenAppInput(text) => (
            ModelView { hidden_app_input: text@, ..m },
            no_effects(),
        ),
        Message::AddHiddenApp => {
            let pattern = trim(m.hidden_app_input);
            if pattern.len() > 0 && !c.hidden_apps.contains(pattern) {
                (
                    ModelView {
                        config: ConfigView { hidden_apps: c.hidden_apps.push(pattern), ..c },
                        hidden_app_input: Seq::empty(),
                        ..m
                    },
                    saved_and_reloaded(),
                )
            } else {
                (ModelView { hidden_app_input: Seq::empty(), ..m }, no_effects())
            }
        },
        Message::RemoveHiddenApp(pattern) => (
            with_config(m, ConfigView { hidden_apps: without(c.hidden_apps, pattern@), ..c }),
            saved_and_reloaded(),
        ),
        Message::ResetConfig => (with_config(m, default_config()), saved_and_reloaded()),
        Message::OpenDonationLink => (m, EffectsView { open_donation_link: true, ..no_effects() }),
        Message::CheckApps(stamp) => if stamp != m.apps_stamp {
            (ModelView { apps_stamp: stamp, ..m }, EffectsView { reload_apps: true, ..no_effects() })
        } else {
            (m, no_effects())
        },
    }
}

/// `v` limited to `lo..=hi`.
fn clamp_u32(v: u32, lo: u32, hi: u32) -> (r: u32)
    requires
        lo <= hi,
    ensures
        r == clamp(v, lo, hi),
{
    if v < lo {
        lo
    } else if v > hi {
        hi
    } else {
        v
    }
}

/// Number of grid columns for a configuration.
pub open spec fn columns(c: ConfigView) -> int {
    let k = if c.max_cols > 0 {
        if c.min_cols < c.max_cols {
            c.min_cols
        } else {
            c.max_cols
        }
    } else {
        c.min_cols
    };
    if k < 1 {
        1
    } else {
        k as int
    }
}

/// Width in pixels of the application grid for a configuration.
pub open spec fn grid_width(c: ConfigView) -> int {
    let k = columns(c);
    k * (c.cell_width + 8) + (k - 1) * c.col_spacing + 16
}

/// `rows` lays out `n` items in rows of `cols` slots: as many rows as needed,
/// item `i` in row `i / cols` at slot `i % cols`, the remaining slots empty.
pub open spec fn grid_layout(rows: Seq<Seq<Option<usize>>>, n: int, cols: int) -> bool {
    &&& rows.len() * cols >= n
    &&& (rows.len() - 1) * cols < n || rows.len() == 0
    &&& forall|r: int| 0 <= r < rows.len() ==> (#[trigger] rows[r]).len() == cols
    &&& forall|r: int, k: int|
        0 <= r < rows.len() && 0 <= k < cols ==> #[trigger] rows[r][k] == if r * cols + k < n {
            Some((r * cols + k) as usize)
        } else {
            None
        }
}

/// Lays out `n` items in rows of `cols` slots (see `grid_layout`).
pub fn layout_rows(n: usize, cols: usize) -> (rows: Vec<Vec<Option<usize>>>)
    requires
        cols >= 1,
    ensures
        grid_layout(rows@.map_values(|r: Vec<Option<usize>>| r@), n as int, cols as int),
{
    let mut rows: Vec<Vec<Option<usize>>> = Vec::new();
    let mut start: usize = 0;
    assert(rows.len() * cols == 0) by (nonlinear_arith)
        requires
            rows.len() == 0,
    ;
    while start < n
        invariant
            cols >= 1,
            start <= n,
            start < n ==> start == rows.len() * cols,
            rows.len() * cols >= start,
            rows.len() == 0 || (rows.len() - 1) * cols < n,
            forall|r: int| 0 <= r < rows.len() ==> (#[trigger] rows@[r]@).len() == cols,
            forall|r: int, k: int|
                0 <= r < rows.len() && 0 <= k < cols ==> #[trigger] rows@[r]@[k] == if r * cols + k
                    < n {
                    Some((r * cols + k) as usize)
                } else {
                    None
                },
        decreases n - start,
    {
        let mut row: Vec<Option<usize>> = Vec::new();
        let mut k: usize = 0;
        while k < cols
            invariant
                cols >= 1,
                start < n,
                k <= cols,
                row.len() == k,
                forall|j: int| 0 <= j < k ==> #[trigger] row@[j] == if start + j < n {
                    Some((start + j) as usize)
                } else {
                    None
                },
            decreases cols - k,
        {
            if k < n - start {
                row.push(Some(start + k));
            } else {
                row.push(None);
            }
            k = k + 1;
        }
        let ghost r0 = rows.len() as int;
        rows.push(row);
        proof {
            assert forall|r: int, k: int|
                0 <= r < rows.len() && 0 <= k < cols implies #[trigger] rows@[r]@[k] == if r * cols + k
                    < n {
                    Some((r * cols + k) as usize)
                } else {
                    None
                } by {
                if r == r0 {
                    assert(r * cols == start);
                }
            }
            assert((r0 + 1) * cols == r0 * cols + cols) by (nonlinear_arith);
            assert(r0 * cols == start);
        }
        if n - start > cols {
            start = start + cols;
        } else {
            start = n;
        }
    }
    proof {
        let rv = rows@.map_values(|r: Vec<Option<usize>>| r@);
        assert forall|r: int| 0 <= r < rv.len() implies (#[trigger] rv[r]).len() == cols by {
            assert(rv[r] == rows@[r]@);
        }
        assert forall|r: int, k: int|
            0 <= r < rv.len() && 0 <= k < cols implies #[trigger] rv[r][k] == if r * cols + k < n {
                Some((r * cols + k) as usize)
            } else {
                None
            } by {
            assert(rv[r] == rows@[r]@);
        }
    }
    rows
}

/// Whether two lists of strings are equal.
fn same_strings(a: &Vec<String>, b: &Vec<String>) -> (r: bool)
    ensures
        r == (strings_view(a@) == strings_view(b@)),
{
    if a.len() != b.len() {
        assert(strings_view(a@).len() != strings_view(b@).len());
        return false;
    }
    let mut i: usize = 0;
    while i < a.len()
        invariant
            i <= a.len(),
            a.len() == b.len(),
            forall|j: int| 0 <= j < i ==> #[trigger] a@[j]@ == b@[j]@,
        decreases a.len() - i,
    {
        if a[i] != b[i] {
            assert(strings_view(a@)[i as int] != strings_view(b@)[i as int]);
            return false;
        }
        i = i + 1;
    }
    assert(strings_view(a@) =~= strings_view(b@));
    true
}

/// Whether `v` holds a string equal to `s`.
fn holds_string(v: &Vec<String>, s: &String) -> (r: bool)
    ensures
        r == strings_view(v@).contains(s@),
{
    let mut i: usize = 0;
    while i < v.len()
        invariant
            i <= v.len(),
            forall|j: int| 0 <= j < i ==> #[trigger] v@[j]@ != s@,
        decreases v.len() - i,
    {
        if v[i] == *s {
            assert(strings_view(v@)[i as int] == s@);
            return true;
        }
        i = i + 1;
    }
    assert(!strings_view(v@).contains(s@)) by {
        if strings_view(v@).contains(s@) {
            let j = choose|j: int| 0 <= j < strings_view(v@).len() && strings_view(v@)[j] == s@;
            assert(v@[j]@ == s@);
        }
    }
    false
}

/// `v` without the strings equal to `s`, in order.
fn without_string(v: &Vec<String>, s: &String) -> (r: Vec<String>)
    ensures
        strings_view(r@) == without(strings_view(v@), s@),
{
    let ghost sv = strings_view(v@);
    let mut r: Vec<String> = Vec::new();
    let mut i: usize = 0;
    assert(sv.take(0) =~= Seq::<Seq<char>>::empty());
    assert(strings_view(r@) =~= Seq::<Seq<char>>::empty());
    while i < v.len()
        invariant
            i <= v.len(),
            sv == strings_view(v@),
            strings_view(r@) == without(sv.take(i as int), s@),
        decreases v.len() - i,
    {
        let ghost t = sv.take(i + 1);
        assert(t.drop_last() =~= sv.take(i as int));
        assert(t.last() == v@[i as int]@);
        if v[i] != *s {
            let ghost before = r@;
            r.push(v[i].clone());
            assert(strings_view(r@) =~= strings_view(before).push(v@[i as int]@));
        }
        i = i + 1;
    }
    assert(sv.take(v.len() as int) =~= sv);
    r
}

impl AppModel {
    /// A model with the popup closed, showing the grid, with an empty
    /// pattern field.
    pub fn new(config: Config, apps: Vec<AppEntry>, apps_stamp: u64) -> (m: AppModel)
        ensures
            m@ == (ModelView {
                popup: None,
                config: config@,
                apps: views(apps@),
                popup_view: PopupView::Grid,
                hidden_app_input: Seq::empty(),
                apps_stamp: apps_stamp,
            }),
    {
        AppModel {
            popup: None,
            config,
            apps,
            popup_view: PopupView::Grid,
            hidden_app_input: String::new(),
            apps_stamp,
        }
    }

    /// Handles one message: changes the state and says what is left to do.
    pub fn update(&mut self, message: Message) -> (eff: Effects)
        ensures
            (final(self)@, eff@) == step(old(self)@, message),
    {
        let ghost m = self@;
        let mut eff = Effects {
            popup: PopupAction::Keep,
            save_config: false,
            reload_apps: false,
            launch: None,
            open_donation_link: false,
        };
        match message {
            Message::TogglePopup(id) => {
                match self.popup {
                    Some(p) => {
                        self.popup = None;
                        eff.popup = PopupAction::Close(p);
                    },
                    None => {
                        self.popup = Some(id);
                        self.popup_view = PopupView::Grid;
                        eff.popup = PopupAction::Open(id);
                    },
                }
            },
            Message::PopupClosed(id) => {
                if self.popup == Some(id) {
                    self.popup = None;
                }
            },
            Message::UpdateConfig(config) => {
                let hidden_changed = !same_strings(&config.hidden_apps, &self.config.hidden_apps);
                self.config = config;
                eff.reload_apps = hidden_changed;
            },
            Message::LaunchApp(index) => {
                if index < self.apps.len() {
                    eff.launch = Some(self.apps[index].exec_clean.clone());
                }
                eff.popup = self.close_popup();
            },
            Message::SetView(view) => {
                self.popup_view = view;
            },
            Message::SetIconSize(v) => {
                self.config.icon_size = clamp_u32(v, 16, 96);
                eff.save_config = true;
            },
            Message::SetCellWidth(v) => {
                self.config.cell_width = clamp_u32(v, 48, 128);
                eff.save_config = true;
                eff.popup = self.popup_resize();
            },
            Message::SetCellHeight(v) => {
                self.config.cell_height = clamp_u32(v, 48, 256);
                eff.save_config = true;
            },
            Message::SetColSpacing(v) => {
                self.config.col_spacing = clamp_u32(v, 0, 64);
                eff.save_config = true;
                eff.popup = self.popup_resize();
            },
            Message::SetRowSpacing(v) => {
                self.config.row_spacing = clamp_u32(v, 0, 64);
                eff.save_config = true;
            },
            Message::SetPopupHeight(v) => {
                self.config.popup_height = clamp_u32(v, 200, 900);
                eff.save_config = true;
                eff.popup = self.popup_resize();
            },
            Message::SetMinCols(v) => {
                self.config.min_cols = clamp_u32(v, 1, 8);
                eff.save_config = true;
                eff.popup = self.popup_resize();
            },
            Message::SetMaxCols(v) => {
                self.config.max_cols = clamp_u32(v, 0, 8);
                eff.save_config = true;
                eff.popup = self.popup_resize();
            },
            Message::SetShowLabels(v) => {
                self.config.show_labels = v;
                eff.save_config = true;
            },
            Message::HiddenAppInput(text) => {
                self.hidden_app_input = text;
            },
            Message::AddHiddenApp => {
                let raw = chars_of(self.hidden_app_input.as_str());
                let trimmed = trim_chars(&raw);
                let pattern = string_of(&trimmed);
                if trimmed.len() > 0 && !holds_string(&self.config.hidden_apps, &pattern) {
                    let ghost before = self.config.hidden_apps@;
                    self.config.hidden_apps.push(pattern);
                    assert(strings_view(self.config.hidden_apps@) =~= strings_view(before).push(
                        trimmed@,
                    ));
                    eff.save_config = true;
                    eff.reload_apps = true;
                }
                self.hidden_app_input = String::new();
            },
            Message::RemoveHiddenApp(pattern) => {
                self.config.hidden_apps = without_string(&self.config.hidden_apps, &pattern);
                eff.save_config = true;
                eff.reload_apps = true;
            },
            Message::ResetConfig => {
                self.config = Config::default();
                eff.save_config = true;
                eff.reload_apps = true;
            },
            Message::OpenDonationLink => {
                eff.open_donation_link = true;
            },
            Message::CheckApps(stamp) => {
                if stamp != self.apps_stamp {
                    self.apps_stamp = stamp;
                    eff.reload_apps = true;
                }
            },
        }
        eff
    }

    /// Number of grid columns: `min_cols`, capped by `max_cols` when that is
    /// not 0, and at least 1.
    pub fn calculate_columns(&self) -> (cols: usize)
        ensures
            cols == columns(self@.config),
    {
        let cols = if self.config.max_cols > 0 {
            if self.config.min_cols < self.config.max_cols {
                self.config.min_cols
            } else {
                self.config.max_cols
            }
        } else {
            self.config.min_cols
        };
        if cols < 1 {
            1
        } else {
            cols as usize
        }
    }

    /// Pixel width the scrollable (and thus the popup) needs to fit the grid:
    /// each tile is `cell_width` plus 8 of button padding, the columns are
    /// `col_spacing` apart and 16 more cover the inner padding.
    pub fn grid_display_width(&self) -> (w: u32)
        requires
            grid_width(self@.config) <= u32::MAX,
        ensures
            w == grid_width(self@.config),
    {
        let cols = self.calculate_columns() as u32;
        let ghost c = self@.config;
        proof {
            let k = columns(c);
            assert(k * (c.cell_width + 8) >= c.cell_width + 8) by (nonlinear_arith)
                requires
                    k >= 1,
            ;
            assert(0 <= (k - 1) * c.col_spacing) by (nonlinear_arith)
                requires
                    k >= 1,
            ;
        }
        let tile_w = self.config.cell_width + 8;
        let spacing = if cols > 1 {
            (cols - 1) * self.config.col_spacing
        } else {
            0
        };
        proof {
            assert(cols <= 1 ==> (cols - 1) * c.col_spacing == 0) by (nonlinear_arith)
                requires
                    cols >= 1,
            ;
        }
        cols * tile_w + spacing + 16
    }

    /// The grid width when it fits in a `u32`, `None` when it does not.
    pub fn fitting_grid_width(&self) -> (w: Option<u32>)
        ensures
            w == if grid_width(self@.config) <= u32::MAX {
                Some(grid_width(self@.config) as u32)
            } else {
                None::<u32>
            },
    {
        let cols = self.calculate_columns() as u64;
        let ghost c = self@.config;
        let tile_w = self.config.cell_width as u64 + 8;
        let tiles = match cols.checked_mul(tile_w) {
            Some(t) => t,
            None => {
                proof {
                    assert((cols - 1) * c.col_spacing >= 0) by (nonlinear_arith)
                        requires
                            cols >= 1,
                    ;
                }
                return None;
            },
        };
        proof {
            assert(cols <= 0xffff_ffff);
            assert((cols - 1) * c.col_spacing <= 0xffff_ffff * 0xffff_ffff) by (nonlinear_arith)
                requires
                    1 <= cols <= 0xffff_ffff,
                    c.col_spacing <= 0xffff_ffff,
            ;
        }
        let spacing = (cols - 1) * self.config.col_spacing as u64;
        if tiles > u32::MAX as u64 || spacing > u32::MAX as u64 {
            proof {
                assert((cols - 1) * c.col_spacing >= 0) by (nonlinear_arith)
                    requires
                        cols >= 1,
                ;
            }
            return None;
        }
        let total = tiles + spacing + 16;
        if total > u32::MAX as u64 {
            None
        } else {
            Some(self.grid_display_width())
        }
    }

    /// Height of the popup window: the grid area plus 40 for the header,
    /// divider and border.
    pub fn popup_window_height(&self) -> (h: u64)
        ensures
            h == self@.config.popup_height + 40,
    {
        self.config.popup_height as u64 + 40
    }

    /// The rows of the application grid: each row has one slot per column,
    /// filled with application indices in order; the slots after the last
    /// application stay empty.
    pub fn grid_rows(&self) -> (rows: Vec<Vec<Option<usize>>>)
        ensures
            grid_layout(rows@.map_values(|r: Vec<Option<usize>>| r@), self@.apps.len() as int, columns(self@.config)),
    {
        let cols = self.calculate_columns();
        let n = self.apps.len();
        layout_rows(n, cols)
    }

    /// The open popup, if any.
    pub fn popup(&self) -> (p: Option<u64>)
        ensures
            p == self@.popup,
    {
        self.popup
    }

    /// The current configuration.
    pub fn config(&self) -> (c: &Config)
        ensures
            c@ == self@.config,
    {
        &self.config
    }

    /// The installed applications, in display order.
    pub fn apps(&self) -> (a: &Vec<AppEntry>)
        ensures
            views(a@) == self@.apps,
    {
        &self.apps
    }

    /// The sub-view shown inside the popup.
    pub fn popup_view(&self) -> (v: PopupView)
        ensures
            v == self@.popup_view,
    {
        self.popup_view
    }

    /// The text in the pattern field.
    pub fn hidden_app_input(&self) -> (t: &str)
        ensures
            t@ == self@.hidden_app_input,
    {
        self.hidden_app_input.as_str()
    }

    /// Fingerprint of the application directories at the last load.
    pub fn apps_stamp(&self) -> (s: u64)
        ensures
            s == self@.apps_stamp,
    {
        self.apps_stamp
    }

    /// Puts a freshly loaded application list in place of the current one.
    pub fn replace_apps(&mut self, apps: Vec<AppEntry>)
        ensures
            final(self)@ == (ModelView { apps: views(apps@), ..old(self)@ }),
    {
        self.apps = apps;
    }

    /// Closes the popup, if one is open, and says which.
    pub fn close_popup(&mut self) -> (a: PopupAction)
        ensures
            (final(self)@, a) == popup_closed(old(self)@),
    {
        match self.popup {
            Some(p) => {
                self.popup = None;
                PopupAction::Close(p)
            },
            None => PopupAction::Keep,
        }
    }

    /// The popup, if one is open, is to be fitted to the current grid.
    fn popup_resize(&self) -> (a: PopupAction)
        ensures
            a == match self@.popup {
                Some(p) => PopupAction::Resize(p),
                None => PopupAction::Keep,
            },
    {
        match self.popup {
            Some(p) => PopupAction::Resize(p),
            None => PopupAction::Keep,
        }
    }
}

} // verus!
