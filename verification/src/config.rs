use vstd::prelude::*;

verus! {

/// Persistent configuration for the Compact Launcher applet.
/// All fields mirror the GSettings keys in the GNOME extension counterpart.
#[derive(Clone, Debug, PartialEq, Eq)]
pub struct Config {
    /// Size in pixels of the icon image inside each tile (16-128).
    pub icon_size: u32,
    /// Fixed width in pixels of each grid cell (48-256).
    pub cell_width: u32,
    /// Minimum height in pixels of each grid cell — icon + label (48-256).
    pub cell_height: u32,
    /// Horizontal gap in pixels between icon columns (0-64).
    pub col_spacing: u32,
    /// Vertical gap in pixels between icon rows (0-64).
    pub row_spacing: u32,
    /// Popup width in pixels (200-3840).
    pub popup_width: u32,
    /// Maximum popup height in pixels (200-2160).
    pub popup_height: u32,
    /// Pixel inset subtracted from the popup width when calculating column count (0-120).
    pub grid_margin_px: u32,
    /// Minimum number of icon columns regardless of popup size (1-20).
    pub min_cols: u32,
    /// Maximum number of columns; 0 = automatic (0-20).
    pub max_cols: u32,
    /// Whether to show the app name label below each icon tile.
    pub show_labels: bool,
    /// App name patterns (exact or glob with *) to hide from the grid.
    pub hidden_apps: Vec<String>,
}

/// A configuration's values, with the hidden-app patterns as character
/// sequences.
pub struct ConfigView {
    pub icon_size: u32,
    pub cell_width: u32,
    pub cell_height: u32,
    pub col_spacing: u32,
    pub row_spacing: u32,
    pub popup_width: u32,
    pub popup_height: u32,
    pub grid_margin_px: u32,
    pub min_cols: u32,
    pub max_cols: u32,
    pub show_labels: bool,
    pub hidden_apps: Seq<Seq<char>>,
}

pub open spec fn strings_view(v: Seq<String>) -> Seq<Seq<char>> {
    v.map_values(|s: String| s@)
}

impl View for Config {
    type V = ConfigView;

    open spec fn view(&self) -> ConfigView {
        ConfigView {
            icon_size: self.icon_size,
            cell_width: self.cell_width,
            cell_height: self.cell_height,
            col_spacing: self.col_spacing,
            row_spacing: self.row_spacing,
            popup_width: self.popup_width,
            popup_height: self.popup_height,
            grid_margin_px: self.grid_margin_px,
            min_cols: self.min_cols,
            max_cols: self.max_cols,
            show_labels: self.show_labels,
            hidden_apps: strings_view(self.hidden_apps@),
        }
    }
}

/// The configuration used when none is stored.
pub open spec fn default_config() -> ConfigView {
    ConfigView {
        icon_size: 48,
        cell_width: 80,
        cell_height: 88,
        col_spacing: 4,
        row_spacing: 4,
        popup_width: 360,
        popup_height: 800,
        grid_margin_px: 8,
        min_cols: 7,
        max_cols: 7,
        show_labels: true,
        hidden_apps: Seq::empty(),
    }
}

/// Every numeric value lies in the range that its field's documentation
/// gives.
pub open spec fn within_documented_ranges(c: ConfigView) -> bool {
    &&& 16 <= c.icon_size <= 128
    &&& 48 <= c.cell_width <= 256
    &&& 48 <= c.cell_height <= 256
    &&& c.col_spacing <= 64
    &&& c.row_spacing <= 64
    &&& 200 <= c.popup_width <= 3840
    &&& 200 <= c.popup_height <= 2160
    &&& c.grid_margin_px <= 120
    &&& 1 <= c.min_cols <= 20
    &&& c.max_cols <= 20
}

impl Config {
    /// Version of the stored configuration layout.
    pub const VERSION: u64 = 3;
}

impl Default for Config {
    fn default() -> (c: Self)
        ensures
            c@ == default_config(),
    {
        let c = Config {
            icon_size: 48,
            cell_width: 80,
            cell_height: 88,
            col_spacing: 4,
            row_spacing: 4,
            popup_width: 360,
            popup_height: 800,
            grid_margin_px: 8,
            min_cols: 7,
            max_cols: 7,
            show_labels: true,
            hidden_apps: Vec::new(),
        };
        assert(strings_view(c.hidden_apps@) =~= Seq::<Seq<char>>::empty());
        c
    }
}

/// The default configuration lies within the documented ranges.
pub proof fn lemma_default_within_ranges()
    ensures
        within_documented_ranges(default_config()),
{
}

} // verus!
