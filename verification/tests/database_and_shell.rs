use scripture_wallpaper::database::{
    pick_verse_offset, DatabaseInit, DbReply, DbRequest, Edition, InitPhase,
};
use scripture_wallpaper::shell::{
    clock_tick, desktop_script, launched_hidden, macos_wallpaper_outcome, menu_command,
    tray_click_shows_window, unsupported_wallpaper_outcome, windows_wallpaper_outcome, ClockTick,
    MenuCommand,
};
use scripture_wallpaper::text::{contains_str, join_strs, replace_str, str_eq, str_eq_ignore_case};

fn describe(r: &DbRequest) -> String {
    format!("{:?}", r)
}

#[test]
fn setup_of_a_new_database() {
    let (mut m, r) = DatabaseInit::new("/data/s.db", 2, 1);
    assert_eq!(describe(&r), "CreateScripturesTable");
    let r = m.step(DbReply::Done);
    assert_eq!(describe(&r), "CountUniqueIndexes");
    let r = m.step(DbReply::Count(Some(1)));
    assert_eq!(describe(&r), "CreateFavoritesTable");
    let r = m.step(DbReply::Done);
    assert_eq!(describe(&r), "CountVerses(Cuv)");
    let r = m.step(DbReply::Count(Some(0)));
    assert_eq!(describe(&r), "InsertVerse(Cuv, 0)");
    let r = m.step(DbReply::Done);
    assert_eq!(describe(&r), "InsertVerse(Cuv, 1)");
    let r = m.step(DbReply::Done);
    assert_eq!(describe(&r), "CountVerses(Niv)");
    let r = m.step(DbReply::Count(Some(1)));
    match r {
        DbRequest::Finish(Ok(msg)) => assert_eq!(msg, "数据库初始化成功 (/data/s.db)"),
        other => panic!("unexpected {:?}", other),
    }
    assert_eq!(m.phase(), InitPhase::Finished);
    assert_eq!(describe(&m.step(DbReply::Done)), "Stopped");
}

#[test]
fn setup_rebuilds_table_without_unique_index() {
    let (mut m, _) = DatabaseInit::new("x.db", 0, 0);
    m.step(DbReply::Done);
    let r = m.step(DbReply::Count(None));
    assert_eq!(describe(&r), "RebuildWithUniqueContent");
    let r = m.step(DbReply::Failed("disk I/O error".to_string()));
    match r {
        DbRequest::Finish(Err(msg)) => assert_eq!(msg, "数据库迁移失败: disk I/O error"),
        other => panic!("unexpected {:?}", other),
    }
}

#[test]
fn setup_stops_on_failed_insert() {
    let (mut m, _) = DatabaseInit::new("x.db", 3, 0);
    m.step(DbReply::Done);
    m.step(DbReply::Count(Some(1)));
    m.step(DbReply::Done);
    let r = m.step(DbReply::Count(Some(2)));
    assert_eq!(describe(&r), "InsertVerse(Cuv, 0)");
    let r = m.step(DbReply::Failed("constraint".to_string()));
    match r {
        DbRequest::Finish(Err(msg)) => assert_eq!(msg, "constraint"),
        other => panic!("unexpected {:?}", other),
    }
}

#[test]
fn setup_skips_seeding_when_verses_are_stored() {
    let (mut m, _) = DatabaseInit::new("x.db", 3, 2);
    m.step(DbReply::Done);
    m.step(DbReply::Count(Some(2)));
    m.step(DbReply::Done);
    let r = m.step(DbReply::Count(Some(3)));
    assert_eq!(describe(&r), "CountVerses(Niv)");
    let r = m.step(DbReply::Count(Some(-1)));
    assert!(matches!(r, DbRequest::Finish(Ok(_))));
    assert_eq!(Edition::Cuv.label(), "和合本");
    assert_eq!(Edition::Niv.label(), "NIV");
}

#[test]
fn verse_offsets() {
    assert_eq!(pick_verse_offset(None, "NIV"), Err("数据库中没有 NIV 版本的经文".to_string()));
    assert_eq!(pick_verse_offset(Some(0), "和合本"), Err("数据库中没有 和合本 版本的经文".to_string()));
    assert_eq!(pick_verse_offset(Some(1), "NIV"), Ok(0));
    for _ in 0..50 {
        let o = pick_verse_offset(Some(7), "NIV").unwrap();
        assert!((0..7).contains(&o));
    }
}

#[test]
fn clock_fires_at_six() {
    assert_eq!(clock_tick(6, 0), ClockTick { emit_update: true, sleep_secs: 61 });
    assert_eq!(clock_tick(6, 1), ClockTick { emit_update: false, sleep_secs: 30 });
    assert_eq!(clock_tick(18, 0), ClockTick { emit_update: false, sleep_secs: 30 });
}

#[test]
fn tray_menu_and_clicks() {
    assert_eq!(menu_command("quit"), MenuCommand::Quit);
    assert_eq!(menu_command("show"), MenuCommand::ShowWindow);
    assert_eq!(menu_command("update_now"), MenuCommand::UpdateNow);
    assert_eq!(menu_command("other"), MenuCommand::Ignore);
    assert!(tray_click_shows_window(true, true));
    assert!(!tray_click_shows_window(true, false));
    assert!(!tray_click_shows_window(false, true));
}

#[test]
fn hidden_start() {
    assert!(launched_hidden(&vec!["app".to_string(), "--hidden".to_string()]));
    assert!(!launched_hidden(&vec!["app".to_string(), "--hide".to_string()]));
    assert!(!launched_hidden(&vec![]));
}

#[test]
fn desktop_outcomes() {
    assert_eq!(
        desktop_script("/p/w.jpg"),
        "tell application \"System Events\" to set picture of every desktop to POSIX file \"/p/w.jpg\""
    );
    assert_eq!(windows_wallpaper_outcome(None), Ok("Windows 系统壁纸已成功更新".to_string()));
    assert_eq!(
        windows_wallpaper_outcome(Some("denied".to_string())),
        Err("设置 Windows 壁纸失败: denied".to_string())
    );
    assert_eq!(macos_wallpaper_outcome(Ok(true)), Ok("Mac 系统壁纸已成功更新".to_string()));
    assert_eq!(macos_wallpaper_outcome(Ok(false)), Err("AppleScript 权限被拒绝".to_string()));
    assert_eq!(
        macos_wallpaper_outcome(Err("no such file".to_string())),
        Err("执行 AppleScript 失败: no such file".to_string())
    );
    assert_eq!(unsupported_wallpaper_outcome(), Err("暂不支持该操作系统的壁纸自动设置".to_string()));
}

#[test]
fn text_operations() {
    assert!(contains_str("https://picsum.photos/1920/1080?grayscale", "grayscale"));
    assert!(!contains_str("gray scale", "grayscale"));
    assert!(contains_str("abc", ""));
    assert_eq!(replace_str("a.jpg.jpg", ".jpg", "!"), "a!!");
    assert_eq!(replace_str("aaa", "aa", "b"), "ba");
    assert_eq!(join_strs(&vec!["a", "b", "c"], ", "), "a, b, c");
    assert_eq!(join_strs(&vec![], ", "), "");
    assert!(str_eq("和合本", "和合本"));
    assert!(!str_eq("NIV", "niv"));
    assert!(str_eq_ignore_case("PnG", "png"));
    assert!(!str_eq_ignore_case("pn", "png"));
}

#[test]
fn second_setup_changes_nothing() {
    let (mut m, r) = DatabaseInit::new("/data/s.db", 3, 2);
    assert_eq!(describe(&r), "CreateScripturesTable");
    let r = m.step(DbReply::Done);
    assert_eq!(describe(&r), "CountUniqueIndexes");
    let r = m.step(DbReply::Count(Some(1)));
    assert_eq!(describe(&r), "CreateFavoritesTable");
    let r = m.step(DbReply::Done);
    assert_eq!(describe(&r), "CountVerses(Cuv)");
    let r = m.step(DbReply::Count(Some(3)));
    assert_eq!(describe(&r), "CountVerses(Niv)");
    let r = m.step(DbReply::Count(Some(5)));
    assert_eq!(describe(&r), "Finish(Ok(\"数据库初始化成功 (/data/s.db)\"))");
    assert_eq!(m.phase(), InitPhase::Finished);
}

/// Hour and minute of a reading in seconds since midnight.
fn clock_at(t: u64) -> (u32, u32) {
    (((t / 3600) % 24) as u32, ((t / 60) % 60) as u32)
}

#[test]
fn clock_fires_once_through_six_oclock() {
    // Passes that take 7 seconds beyond their sleep, from 05:58:13 to 06:05.
    let mut t: u64 = 5 * 3600 + 58 * 60 + 13;
    let mut fired = Vec::new();
    while t < 6 * 3600 + 5 * 60 {
        let (h, m) = clock_at(t);
        let tick = clock_tick(h, m);
        if tick.emit_update {
            fired.push(t);
        }
        t += tick.sleep_secs + 7;
    }
    assert_eq!(fired.len(), 1);
    let (h, m) = clock_at(fired[0]);
    assert_eq!((h, m), (6, 0));
}

#[test]
fn statement_texts_fix_the_schema() {
    assert_eq!(
        DbRequest::CreateScripturesTable.sql(),
        Some(
            "CREATE TABLE IF NOT EXISTS scriptures (\n            id INTEGER PRIMARY KEY,\n            content TEXT NOT NULL UNIQUE,\n            reference TEXT NOT NULL,\n            version TEXT DEFAULT '和合本'\n        )"
        )
    );
    assert_eq!(
        DbRequest::CreateFavoritesTable.sql(),
        Some(
            "CREATE TABLE IF NOT EXISTS favorites (\n            id INTEGER PRIMARY KEY,\n            content TEXT NOT NULL,\n            reference TEXT NOT NULL,\n            image_path TEXT NOT NULL,\n            created_at TEXT NOT NULL\n        )"
        )
    );
    assert_eq!(
        DbRequest::CountUniqueIndexes.sql(),
        Some("SELECT COUNT(*) FROM pragma_index_list('scriptures') WHERE unique = 1")
    );
    assert_eq!(
        DbRequest::CountVerses(Edition::Cuv).sql(),
        Some("SELECT COUNT(*) FROM scriptures WHERE version = '和合本'")
    );
    assert_eq!(
        DbRequest::InsertVerse(Edition::Niv, 4).sql(),
        Some("INSERT OR IGNORE INTO scriptures (content, reference, version) VALUES (?1, ?2, 'NIV')")
    );
    assert!(DbRequest::RebuildWithUniqueContent.sql().unwrap().contains("INSERT OR IGNORE INTO scriptures_new"));
    assert_eq!(DbRequest::Finish(Ok("x".to_string())).sql(), None);
    assert_eq!(DbRequest::Stopped.sql(), None);
}

#[test]
fn second_setup_with_a_repeated_verse_reinserts_and_reports_the_same() {
    // The shipped list holds a repeated verse, so one fewer is stored than shipped.
    let (mut m, _) = DatabaseInit::new("/data/s.db", 2, 0);
    let mut requests = Vec::new();
    let replies = [
        DbReply::Done,
        DbReply::Count(Some(1)),
        DbReply::Done,
        DbReply::Count(Some(1)),
        DbReply::Done,
        DbReply::Done,
        DbReply::Count(Some(0)),
    ];
    for reply in replies {
        requests.push(describe(&m.step(reply)));
    }
    assert_eq!(
        requests,
        vec![
            "CountUniqueIndexes",
            "CreateFavoritesTable",
            "CountVerses(Cuv)",
            "InsertVerse(Cuv, 0)",
            "InsertVerse(Cuv, 1)",
            "CountVerses(Niv)",
            "Finish(Ok(\"数据库初始化成功 (/data/s.db)\"))",
        ]
    );
}
