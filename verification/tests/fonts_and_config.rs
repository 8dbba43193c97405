use scripture_wallpaper::config::{
    config_from_parsed, config_saved_message, default_scripture_version, migrate_settings_text,
    needs_font_name_migration,
    repair_config, AppConfig, DEFAULT_FONT_SIZE_BITS,
};
use scripture_wallpaper::fonts::{
    builtin_fonts, find_font, font_download_status, font_ids_joined, is_builtin_font,
};

#[test]
fn builtin_fonts_are_listed_in_order() {
    let fonts = builtin_fonts();
    let ids: Vec<&str> = fonts.iter().map(|f| f.id).collect();
    assert_eq!(ids, vec!["NotoSansSC", "NotoSerifSC", "LXGWWenKai"]);
    assert_eq!(fonts[2].display_name, "霞鹜文楷 LXGW WenKai");
    assert_eq!(fonts[0].filename, "NotoSansSC-Regular.ttf");
}

#[test]
fn find_font_by_id() {
    let f = find_font("NotoSerifSC").unwrap();
    assert_eq!(f.filename, "NotoSerifSC-Regular.ttf");
    assert_eq!(
        f.url,
        "https://fonts.gstatic.com/s/notoserifsc/v35/H4cyBXePl9DZ0Xe7gG9cyOj7uK2-n-D2rd4FY7SCqyWv.ttf"
    );
}

#[test]
fn find_font_unknown_lists_ids() {
    let e = find_font("Arial").unwrap_err();
    assert_eq!(e, "未知字体: Arial，可选字体: NotoSansSC, NotoSerifSC, LXGWWenKai");
    assert_eq!(font_ids_joined(), "NotoSansSC, NotoSerifSC, LXGWWenKai");
}

#[test]
fn font_ids_are_case_sensitive() {
    assert!(is_builtin_font("LXGWWenKai"));
    assert!(!is_builtin_font("lxgwwenkai"));
}

#[test]
fn font_download_status_codes() {
    assert_eq!(font_download_status(200, "200 OK"), Ok(()));
    assert_eq!(font_download_status(299, "299"), Ok(()));
    assert_eq!(
        font_download_status(404, "404 Not Found"),
        Err("字体下载失败 (HTTP 404 Not Found)".to_string())
    );
    assert!(font_download_status(302, "302 Found").is_err());
}

#[test]
fn default_config_values() {
    let c = AppConfig::default();
    assert_eq!(f32::from_bits(c.font_size_bits), 55.0);
    assert_eq!(c.font_size_bits, DEFAULT_FONT_SIZE_BITS);
    assert_eq!(c.update_time, "06:00");
    assert_eq!(c.font_name, "NotoSansSC");
    assert_eq!(c.wallpaper_mode, "bing");
    assert_eq!(c.local_folder, "");
    assert_eq!(c.img_api_url, "https://picsum.photos/1920/1080");
    assert_eq!(c.scripture_version, "和合本");
    assert_eq!(default_scripture_version(), "和合本");
}

fn sample() -> AppConfig {
    AppConfig {
        font_size_bits: 40.0f32.to_bits(),
        update_time: "07:30".to_string(),
        font_name: "Comic Sans".to_string(),
        wallpaper_mode: "local".to_string(),
        local_folder: "/pics".to_string(),
        img_api_url: "https://picsum.photos/1920/1080?grayscale".to_string(),
        scripture_version: "NIV".to_string(),
    }
}

#[test]
fn repair_resets_grayscale_url_and_unknown_font() {
    let r = repair_config(sample());
    assert_eq!(r.img_api_url, "https://picsum.photos/1920/1080");
    assert_eq!(r.font_name, "NotoSansSC");
    assert_eq!(r.font_size_bits, 40.0f32.to_bits());
    assert_eq!(r.update_time, "07:30");
    assert_eq!(r.wallpaper_mode, "local");
    assert_eq!(r.local_folder, "/pics");
    assert_eq!(r.scripture_version, "NIV");
}

#[test]
fn repair_keeps_valid_settings() {
    let mut c = sample();
    c.font_name = "NotoSerifSC".to_string();
    c.img_api_url = "https://example.org/random".to_string();
    let r = repair_config(c);
    assert_eq!(r.font_name, "NotoSerifSC");
    assert_eq!(r.img_api_url, "https://example.org/random");
}

#[test]
fn repair_twice_equals_repair_once() {
    let once = repair_config(sample());
    let twice = repair_config(repair_config(sample()));
    assert_eq!(format!("{:?}", once), format!("{:?}", twice));
}

#[test]
fn unreadable_settings_give_defaults() {
    let c = config_from_parsed(None);
    assert_eq!(format!("{:?}", c), format!("{:?}", AppConfig::default()));
    let c = config_from_parsed(Some(sample()));
    assert_eq!(c.font_name, "NotoSansSC");
}

#[test]
fn legacy_font_path_is_migrated() {
    assert!(needs_font_name_migration(false, true));
    assert!(!needs_font_name_migration(true, true));
    assert!(!needs_font_name_migration(false, false));
    assert!(!needs_font_name_migration(true, false));
    assert_eq!(config_saved_message(), "配置已成功保存");
}

#[test]
fn legacy_settings_text_gets_font_name() {
    let legacy = r#"{"font_size": 46.0, "font_path": "/fonts/old.ttf", "update_time": "06:00"}"#;
    let out = migrate_settings_text(legacy);
    let v: serde_json::Value = serde_json::from_str(&out).unwrap();
    assert_eq!(v["font_name"], serde_json::Value::String("NotoSansSC".to_string()));
    assert!(v.get("font_path").is_none());
    assert_eq!(v["update_time"], serde_json::Value::String("06:00".to_string()));
    assert_eq!(v["font_size"].as_f64(), Some(46.0));
}

#[test]
fn settings_text_without_legacy_key_is_kept() {
    let current = r#"{"font_name": "NotoSerifSC", "font_path": "/x.ttf"}"#;
    assert_eq!(migrate_settings_text(current), current);
    let plain = r#"{"font_name": "NotoSansSC"}"#;
    assert_eq!(migrate_settings_text(plain), plain);
    let broken = "{ not json";
    assert_eq!(migrate_settings_text(broken), broken);
    let list = r#"["font_path"]"#;
    assert_eq!(migrate_settings_text(list), list);
}
