use scripture_wallpaper::compose::{
    average_luma, band_start, caption_colors, metadata_path, metadata_tsv, CaptionColors, Rgba8,
};
use scripture_wallpaper::pictures::{
    archive_picture_at, archive_saved_message, bing_archive_url, download_saved_message,
    is_picture_ext, pick_archive_picture, pick_bing_picture, pick_local_picture, picture_files, DirEntryInfo,
};

fn entry(path: &str, is_file: bool, ext: Option<&str>) -> DirEntryInfo {
    DirEntryInfo { path: path.to_string(), is_file, extension: ext.map(|e| e.to_string()) }
}

#[test]
fn picture_extensions_ignore_ascii_case() {
    assert!(is_picture_ext("jpg"));
    assert!(is_picture_ext("JPG"));
    assert!(is_picture_ext("JpEg"));
    assert!(is_picture_ext("png"));
    assert!(!is_picture_ext("gif"));
    assert!(!is_picture_ext("jpgx"));
    assert!(!is_picture_ext(""));
}

#[test]
fn picture_files_keeps_files_with_picture_extensions() {
    let entries = vec![
        entry("/p/a.jpg", true, Some("jpg")),
        entry("/p/b.txt", true, Some("txt")),
        entry("/p/c.PNG", true, Some("PNG")),
        entry("/p/d.jpeg", false, Some("jpeg")),
        entry("/p/noext", true, None),
    ];
    assert_eq!(picture_files(&entries), vec!["/p/a.jpg".to_string(), "/p/c.PNG".to_string()]);
}

#[test]
fn pick_local_picture_from_empty_folder() {
    let entries = vec![entry("/p/readme", true, None)];
    assert_eq!(
        pick_local_picture(&entries),
        Err("该文件夹下未找到 jpg 或 png 格式的图片".to_string())
    );
}

#[test]
fn pick_local_picture_chooses_a_picture() {
    let entries = vec![
        entry("/p/a.jpg", true, Some("jpg")),
        entry("/p/b.txt", true, Some("txt")),
        entry("/p/c.png", true, Some("png")),
    ];
    for _ in 0..20 {
        let p = pick_local_picture(&entries).unwrap();
        assert!(p == "/p/a.jpg" || p == "/p/c.png");
    }
    let single = vec![entry("/p/only.jpg", true, Some("jpg"))];
    assert_eq!(pick_local_picture(&single), Ok("/p/only.jpg".to_string()));
}

#[test]
fn archive_picture_addresses_and_defects() {
    let images = Some(vec![Some("/th?id=OHR.A.jpg".to_string()), None]);
    assert_eq!(
        archive_picture_at(&images, 0),
        Ok("https://www.bing.com/th?id=OHR.A.jpg".to_string())
    );
    assert_eq!(archive_picture_at(&images, 1), Err("无法从 Bing 数据中提取 URL".to_string()));
    assert_eq!(pick_archive_picture(&None), Err("无法从 Bing 数据中提取图片列表".to_string()));
    assert_eq!(pick_archive_picture(&Some(vec![])), Err("Bing 未返回任何壁纸".to_string()));
    assert_eq!(
        pick_archive_picture(&Some(vec![Some("/x.jpg".to_string())])),
        Ok("https://www.bing.com/x.jpg".to_string())
    );
    assert_eq!(
        bing_archive_url(),
        "https://www.bing.com/HPImageArchive.aspx?format=js&idx=0&n=30&mkt=zh-CN"
    );
}

#[test]
fn download_messages() {
    assert_eq!(download_saved_message("/tmp/a.jpg"), "图片下载成功至: /tmp/a.jpg");
    assert_eq!(archive_saved_message("/tmp/b.jpg"), "Bing 壁纸已成功拉取至: /tmp/b.jpg");
}

#[test]
fn band_start_is_bottom_third() {
    assert_eq!(band_start(1080), 720);
    assert_eq!(band_start(100), 67);
    assert_eq!(band_start(2), 2);
    assert_eq!(band_start(0), 0);
}

#[test]
fn average_luma_values() {
    assert_eq!(average_luma(&vec![]), 128);
    assert_eq!(average_luma(&vec![100, 200]), 150);
    assert_eq!(average_luma(&vec![0, 0, 1]), 0);
    assert_eq!(average_luma(&vec![255; 1000]), 255);
}

#[test]
fn caption_colors_follow_brightness() {
    let dark_text = CaptionColors {
        text: Rgba8 { r: 30, g: 30, b: 30, a: 255 },
        shadow: Rgba8 { r: 255, g: 255, b: 255, a: 180 },
    };
    let light_text = CaptionColors {
        text: Rgba8 { r: 245, g: 245, b: 245, a: 255 },
        shadow: Rgba8 { r: 0, g: 0, b: 0, a: 180 },
    };
    assert_eq!(caption_colors(141), dark_text);
    assert_eq!(caption_colors(140), light_text);
    assert_eq!(caption_colors(0), light_text);
    assert_eq!(caption_colors(255), dark_text);
}

#[test]
fn metadata_path_replaces_extension() {
    assert_eq!(metadata_path("/out/wall.jpg"), "/out/wall_metadata.tsv");
    assert_eq!(metadata_path("/out/wall.png"), "/out/wall_metadata.tsv");
    assert_eq!(metadata_path("/a.jpg.d/w.png"), "/a_metadata.tsv.d/w_metadata.tsv");
}

#[test]
fn metadata_path_never_overwrites_picture() {
    // A path with neither extension gets the suffix appended, so the picture
    // at that path is left alone.
    assert_eq!(metadata_path("/out/wall.jpeg"), "/out/wall.jpeg_metadata.tsv");
    assert_eq!(metadata_path("wall"), "wall_metadata.tsv");
    assert_ne!(metadata_path("/out/wall.bmp"), "/out/wall.bmp");
}

#[test]
fn metadata_tsv_layout() {
    assert_eq!(
        metadata_tsv("2024-01-02 06:00:00", "神爱世人", "/in/pic.jpg"),
        "Date\tScripture_Content\tSource_Image\n2024-01-02 06:00:00\t神爱世人\t/in/pic.jpg\n"
    );
}

#[test]
fn archive_pick_stays_within_the_last_seven_pictures() {
    let images: Vec<Option<String>> = (0..30).map(|i| Some(format!("/p{}.jpg", i))).collect();
    let images = Some(images);
    for _ in 0..200 {
        let url = pick_archive_picture(&images).unwrap();
        let n: usize = url
            .trim_start_matches("https://www.bing.com/p")
            .trim_end_matches(".jpg")
            .parse()
            .unwrap();
        assert!(n < 7, "picked picture {}", n);
    }
}

#[test]
fn bing_reply_is_parsed_and_picked() {
    let body = br#"{"images": [{"url": "/th?id=OHR.A.jpg", "title": "A"}], "tooltips": {}}"#;
    assert_eq!(pick_bing_picture(body), Ok("https://www.bing.com/th?id=OHR.A.jpg".to_string()));
    assert_eq!(
        pick_bing_picture(br#"{"images": []}"#),
        Err("Bing 未返回任何壁纸".to_string())
    );
    assert_eq!(
        pick_bing_picture(br#"{"other": 1}"#),
        Err("无法从 Bing 数据中提取图片列表".to_string())
    );
    assert_eq!(
        pick_bing_picture(br#"{"images": [{"title": "no url"}]}"#),
        Err("无法从 Bing 数据中提取 URL".to_string())
    );
    assert_eq!(
        pick_bing_picture(b"<html>"),
        Err("解析 JSON 失败: error decoding response body".to_string())
    );
}
