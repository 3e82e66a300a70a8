use compact_launcher::config::Config;
use compact_launcher::desktop::AppEntry;
use compact_launcher::model::{layout_rows, AppModel, Message, PopupAction, PopupView};

fn model() -> AppModel {
    let apps = vec![
        AppEntry { name: "A".to_string(), exec_clean: "run-a".to_string(), icon: None },
        AppEntry { name: "B".to_string(), exec_clean: "run-b".to_string(), icon: None },
    ];
    AppModel::new(Config::default(), apps, 7)
}

#[test]
fn default_config_values() {
    let c = Config::default();
    assert_eq!((c.icon_size, c.cell_width, c.cell_height), (48, 80, 88));
    assert_eq!((c.col_spacing, c.row_spacing, c.popup_width, c.popup_height), (4, 4, 360, 800));
    assert_eq!((c.grid_margin_px, c.min_cols, c.max_cols), (8, 7, 7));
    assert!(c.show_labels);
    assert!(c.hidden_apps.is_empty());
}

#[test]
fn toggle_twice_opens_then_closes() {
    let mut m = model();
    m.update(Message::SetView(PopupView::Settings));
    let e = m.update(Message::TogglePopup(11));
    assert_eq!(e.popup, PopupAction::Open(11));
    assert_eq!(m.popup(), Some(11));
    assert_eq!(m.popup_view(), PopupView::Grid);
    let e = m.update(Message::TogglePopup(12));
    assert_eq!(e.popup, PopupAction::Close(11));
    assert_eq!(m.popup(), None);
}

#[test]
fn popup_closed_only_for_same_id() {
    let mut m = model();
    m.update(Message::TogglePopup(3));
    m.update(Message::PopupClosed(4));
    assert_eq!(m.popup(), Some(3));
    m.update(Message::PopupClosed(3));
    assert_eq!(m.popup(), None);
}

#[test]
fn launch_runs_command_and_closes_popup() {
    let mut m = model();
    m.update(Message::TogglePopup(1));
    let e = m.update(Message::LaunchApp(1));
    assert_eq!(e.launch, Some("run-b".to_string()));
    assert_eq!(e.popup, PopupAction::Close(1));
    assert_eq!(m.popup(), None);
    let e = m.update(Message::LaunchApp(5));
    assert_eq!(e.launch, None);
    assert_eq!(e.popup, PopupAction::Keep);
}

#[test]
fn setters_clamp_and_save() {
    let mut m = model();
    let e = m.update(Message::SetIconSize(1000));
    assert_eq!(m.config().icon_size, 96);
    assert!(e.save_config);
    assert_eq!(e.popup, PopupAction::Keep);
    m.update(Message::SetIconSize(3));
    assert_eq!(m.config().icon_size, 16);
    m.update(Message::SetCellWidth(1));
    assert_eq!(m.config().cell_width, 48);
    m.update(Message::SetCellHeight(999));
    assert_eq!(m.config().cell_height, 256);
    m.update(Message::SetColSpacing(65));
    assert_eq!(m.config().col_spacing, 64);
    m.update(Message::SetRowSpacing(10));
    assert_eq!(m.config().row_spacing, 10);
    m.update(Message::SetPopupHeight(10));
    assert_eq!(m.config().popup_height, 200);
    m.update(Message::SetMinCols(0));
    assert_eq!(m.config().min_cols, 1);
    m.update(Message::SetMaxCols(9));
    assert_eq!(m.config().max_cols, 8);
    m.update(Message::SetShowLabels(false));
    assert!(!m.config().show_labels);
}

#[test]
fn layout_setters_resize_open_popup() {
    let mut m = model();
    let e = m.update(Message::SetCellWidth(100));
    assert_eq!(e.popup, PopupAction::Keep);
    m.update(Message::TogglePopup(9));
    for msg in [
        Message::SetCellWidth(100),
        Message::SetColSpacing(2),
        Message::SetPopupHeight(300),
        Message::SetMinCols(3),
        Message::SetMaxCols(2),
    ] {
        let e = m.update(msg);
        assert_eq!(e.popup, PopupAction::Resize(9));
        assert!(e.save_config);
    }
    for msg in [Message::SetIconSize(20), Message::SetCellHeight(60), Message::SetRowSpacing(1)] {
        let e = m.update(msg);
        assert_eq!(e.popup, PopupAction::Keep);
    }
}

#[test]
fn add_and_remove_hidden_patterns() {
    let mut m = model();
    m.update(Message::HiddenAppInput("  steam* ".to_string()));
    assert_eq!(m.hidden_app_input(), "  steam* ");
    let e = m.update(Message::AddHiddenApp);
    assert!(e.save_config && e.reload_apps);
    assert_eq!(m.config().hidden_apps, vec!["steam*".to_string()]);
    assert_eq!(m.hidden_app_input(), "");
    m.update(Message::HiddenAppInput("steam*".to_string()));
    let e = m.update(Message::AddHiddenApp);
    assert!(!e.save_config && !e.reload_apps);
    assert_eq!(m.config().hidden_apps.len(), 1);
    assert_eq!(m.hidden_app_input(), "");
    m.update(Message::HiddenAppInput("   ".to_string()));
    let e = m.update(Message::AddHiddenApp);
    assert!(!e.save_config);
    let e = m.update(Message::RemoveHiddenApp("steam*".to_string()));
    assert!(e.save_config && e.reload_apps);
    assert!(m.config().hidden_apps.is_empty());
}

#[test]
fn reset_restores_defaults() {
    let mut m = model();
    m.update(Message::SetIconSize(90));
    m.update(Message::HiddenAppInput("x".to_string()));
    m.update(Message::AddHiddenApp);
    let e = m.update(Message::ResetConfig);
    assert!(e.save_config && e.reload_apps);
    assert_eq!(*m.config(), Config::default());
}

#[test]
fn update_config_reloads_only_when_patterns_change() {
    let mut m = model();
    let mut c = Config::default();
    c.icon_size = 64;
    let e = m.update(Message::UpdateConfig(c.clone()));
    assert!(!e.reload_apps && !e.save_config);
    assert_eq!(m.config().icon_size, 64);
    c.hidden_apps.push("x".to_string());
    let e = m.update(Message::UpdateConfig(c));
    assert!(e.reload_apps);
}

#[test]
fn check_apps_reloads_on_new_stamp() {
    let mut m = model();
    let e = m.update(Message::CheckApps(7));
    assert!(!e.reload_apps);
    let e = m.update(Message::CheckApps(8));
    assert!(e.reload_apps);
    assert_eq!(m.apps_stamp(), 8);
}

#[test]
fn donation_link() {
    let mut m = model();
    let e = m.update(Message::OpenDonationLink);
    assert!(e.open_donation_link && !e.save_config);
}

#[test]
fn replace_apps_swaps_list() {
    let mut m = model();
    m.replace_apps(vec![]);
    assert!(m.apps().is_empty());
}

#[test]
fn columns_and_width() {
    let mut m = model();
    assert_eq!(m.calculate_columns(), 7);
    // 7 tiles of 80 + 8, 6 gaps of 4, 16 of padding
    assert_eq!(m.grid_display_width(), 656);
    assert_eq!(m.popup_window_height(), 840);
    m.update(Message::SetMaxCols(3));
    assert_eq!(m.calculate_columns(), 3);
    m.update(Message::SetMaxCols(0));
    assert_eq!(m.calculate_columns(), 7);
    let mut c = Config::default();
    c.min_cols = 0;
    c.max_cols = 0;
    m.update(Message::UpdateConfig(c));
    assert_eq!(m.calculate_columns(), 1);
    assert_eq!(m.grid_display_width(), 80 + 8 + 16);
}

#[test]
fn grid_rows_layout() {
    let rows = layout_rows(5, 2);
    assert_eq!(rows, vec![vec![Some(0), Some(1)], vec![Some(2), Some(3)], vec![Some(4), None]]);
    assert!(layout_rows(0, 3).is_empty());
    assert_eq!(layout_rows(3, 3), vec![vec![Some(0), Some(1), Some(2)]]);
    let m = model();
    assert_eq!(m.grid_rows(), vec![vec![Some(0), Some(1), None, None, None, None, None]]);
}

#[test]
fn grid_width_that_does_not_fit() {
    let mut m = model();
    assert_eq!(m.fitting_grid_width(), Some(656));
    let mut c = Config::default();
    c.min_cols = 70000;
    c.max_cols = 0;
    c.cell_width = 70000;
    m.update(Message::UpdateConfig(c));
    assert_eq!(m.fitting_grid_width(), None);
    let mut c = Config::default();
    c.min_cols = u32::MAX;
    c.max_cols = 0;
    c.cell_width = u32::MAX;
    m.update(Message::UpdateConfig(c));
    assert_eq!(m.fitting_grid_width(), None);
    assert_eq!(m.popup_window_height(), 840);
}
