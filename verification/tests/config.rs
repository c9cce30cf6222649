use deskframe::config::{icon_path, AppConfig};

fn config_with_ids(ids: &[u32]) -> AppConfig {
    let mut c = AppConfig::default();
    for &id in ids {
        c.next_id = id;
        assert!(c.add_shortcut_window("app.exe", ""));
    }
    c.next_id = ids.iter().copied().max().map_or(0, |m| m + 1);
    c
}

#[test]
fn default_config_is_empty() {
    let c = AppConfig::default();
    assert!(c.windows.is_empty());
    assert_eq!(c.next_id, 0);
}

#[test]
fn add_window_uses_trimmed_inputs_and_defaults() {
    let mut c = AppConfig::default();
    assert!(c.add_shortcut_window("  C:\\Tools\\edit.exe \n", "  Editor "));
    assert_eq!(c.next_id, 1);
    assert_eq!(c.windows.len(), 1);
    let w = &c.windows[0];
    assert_eq!(w.id_token, 0);
    assert_eq!(w.title, "Editor");
    assert_eq!(f32::from_bits(w.pos_x_bits), 150.0);
    assert_eq!(f32::from_bits(w.pos_y_bits), 150.0);
    assert_eq!(f32::from_bits(w.width_bits), 280.0);
    assert_eq!(f32::from_bits(w.height_bits), 220.0);
    assert_eq!(w.shortcuts.len(), 1);
    assert_eq!(w.shortcuts[0].name, "Editor");
    assert_eq!(w.shortcuts[0].exe_path, "C:\\Tools\\edit.exe");
    assert_eq!(w.shortcuts[0].icon_png_path, "_icon_cache/icon_0.png");
}

#[test]
fn add_window_without_name_gets_default_title() {
    let mut c = AppConfig::default();
    c.next_id = 41;
    assert!(c.add_shortcut_window("game.exe", ""));
    assert_eq!(c.next_id, 42);
    assert_eq!(c.windows[0].title, "Shortcut Layer");
    assert_eq!(c.windows[0].shortcuts[0].name, "Shortcut Layer");
    assert_eq!(c.windows[0].shortcuts[0].icon_png_path, "_icon_cache/icon_41.png");
}

#[test]
fn add_window_with_blank_name_keeps_it_trimmed_empty() {
    let mut c = AppConfig::default();
    assert!(c.add_shortcut_window("  ", "   "));
    assert_eq!(c.windows[0].title, "");
    assert_eq!(c.windows[0].shortcuts[0].exe_path, "");
}

#[test]
fn add_window_with_empty_exe_does_nothing() {
    let mut c = AppConfig::default();
    c.next_id = 5;
    assert!(!c.add_shortcut_window("", "Name"));
    assert!(c.windows.is_empty());
    assert_eq!(c.next_id, 5);
}

#[test]
fn remove_window_keeps_the_others_in_order() {
    let mut c = config_with_ids(&[0, 1, 2, 1, 3]);
    c.remove_window(1);
    let ids: Vec<u32> = c.windows.iter().map(|w| w.id_token).collect();
    assert_eq!(ids, vec![0, 2, 3]);
    assert_eq!(c.next_id, 4);
    c.remove_window(9);
    assert_eq!(c.windows.len(), 3);
}

#[test]
fn remove_undoes_add() {
    let mut c = config_with_ids(&[0, 1, 2]);
    let before: Vec<u32> = c.windows.iter().map(|w| w.id_token).collect();
    let id = c.next_id;
    assert!(c.add_shortcut_window("x.exe", "X"));
    c.remove_window(id);
    let after: Vec<u32> = c.windows.iter().map(|w| w.id_token).collect();
    assert_eq!(before, after);
}

#[test]
fn set_window_size_changes_first_match_only() {
    let mut c = config_with_ids(&[4, 7, 7]);
    let w = 640.5f32.to_bits();
    let h = 480.25f32.to_bits();
    assert!(c.set_window_size(7, w, h));
    assert_eq!(c.windows[1].width_bits, w);
    assert_eq!(c.windows[1].height_bits, h);
    assert_eq!(f32::from_bits(c.windows[2].width_bits), 280.0);
    assert_eq!(f32::from_bits(c.windows[0].height_bits), 220.0);
    assert_eq!(c.windows[1].pos_x_bits, 150.0f32.to_bits());
}

#[test]
fn set_window_size_of_missing_window_reports_false() {
    let mut c = config_with_ids(&[1]);
    assert!(!c.set_window_size(2, 1, 1));
    assert_eq!(f32::from_bits(c.windows[0].width_bits), 280.0);
}

#[test]
fn icon_paths_follow_the_id() {
    assert_eq!(icon_path(0), "_icon_cache/icon_0.png");
    assert_eq!(icon_path(1234567), "_icon_cache/icon_1234567.png");
    assert_eq!(icon_path(u32::MAX), "_icon_cache/icon_4294967295.png");
    assert_ne!(icon_path(12), icon_path(1));
}

#[test]
fn edits_keep_ids_unique_and_below_next_id() {
    let mut c = AppConfig::default();
    for k in 0..6 {
        assert!(c.add_shortcut_window("a.exe", ""));
        if k % 2 == 1 {
            c.remove_window(k - 1);
        }
        assert!(c.set_window_size(k, 1, 2) || k % 2 == 1);
    }
    let ids: Vec<u32> = c.windows.iter().map(|w| w.id_token).collect();
    assert_eq!(ids, vec![1, 3, 5]);
    for (i, a) in ids.iter().enumerate() {
        assert!(*a < c.next_id);
        for b in &ids[i + 1..] {
            assert_ne!(a, b);
        }
    }
    assert_eq!(c.windows.last().map(|w| w.shortcuts[0].icon_png_path.clone()), Some("_icon_cache/icon_5.png".to_string()));
}

#[test]
fn add_window_with_empty_exe_at_last_id_does_nothing() {
    let mut c = AppConfig::default();
    c.next_id = u32::MAX;
    assert!(!c.add_shortcut_window("", "Name"));
    assert!(c.windows.is_empty());
    assert_eq!(c.next_id, u32::MAX);
}
