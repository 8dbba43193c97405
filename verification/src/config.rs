//! The persisted settings of the tool, their defaults, and the repairs made to
//! settings read back from disk.
use vstd::prelude::*;
use crate::fonts::{default_font_id, default_font_name, is_builtin_font, is_builtin_font_id};
use crate::json::{json_has_key, json_rename_key, spec_json_has_key, spec_json_rename_key};
use crate::text::{contains_seq, contains_str};

verus! {

/// The settings of the tool.
///
/// The caption size is a floating-point number of pixels; it is held here as
/// the IEEE-754 bit pattern of that `f32`, which none of the logic below reads.
#[derive(Debug)]
pub struct AppConfig {
    /// Bit pattern of the caption font size in pixels, as `f32::to_bits` gives it.
    pub font_size_bits: u32,
    /// Time of day of the daily update, as `HH:MM`.
    pub update_time: String,
    /// Id of the caption font.
    pub font_name: String,
    /// Where pictures come from (`bing`, a local folder, or a picture service).
    pub wallpaper_mode: String,
    /// Folder of local pictures.
    pub local_folder: String,
    /// Address of the picture service.
    pub img_api_url: String,
    /// Bible version of the verses.
    pub scripture_version: String,
}

/// The settings as plain values.
pub struct ConfigView {
    pub font_size_bits: u32,
    pub update_time: Seq<char>,
    pub font_name: Seq<char>,
    pub wallpaper_mode: Seq<char>,
    pub local_folder: Seq<char>,
    pub img_api_url: Seq<char>,
    pub scripture_version: Seq<char>,
}

impl View for AppConfig {
    type V = ConfigView;

    open spec fn view(&self) -> ConfigView {
        ConfigView {
            font_size_bits: self.font_size_bits,
            update_time: self.update_time@,
            font_name: self.font_name@,
            wallpaper_mode: self.wallpaper_mode@,
            local_folder: self.local_folder@,
            img_api_url: self.img_api_url@,
            scripture_version: self.scripture_version@,
        }
    }
}

/// Bit pattern of the `f32` value 55.0, the default caption size.
pub const DEFAULT_FONT_SIZE_BITS: u32 = 0x425C_0000;

/// The Bible version used when the settings name none.
pub open spec fn spec_default_scripture_version() -> Seq<char> {
    "和合本"@
}

/// The address of the picture service used by default and in place of a
/// legacy grayscale address.
pub open spec fn default_image_api() -> Seq<char> {
    "https://picsum.photos/1920/1080"@
}

/// The default settings.
pub open spec fn default_config() -> ConfigView {
    ConfigView {
        font_size_bits: DEFAULT_FONT_SIZE_BITS,
        update_time: "06:00"@,
        font_name: default_font_id(),
        wallpaper_mode: "bing"@,
        local_folder: Seq::empty(),
        img_api_url: default_image_api(),
        scripture_version: spec_default_scripture_version(),
    }
}

/// Settings read back from disk, repaired: a picture-service address that
/// mentions `grayscale` is replaced by the default address, and a font id
/// that is not built in is replaced by the default font.
pub open spec fn repaired(c: ConfigView) -> ConfigView {
    ConfigView {
        img_api_url: if contains_seq(c.img_api_url, "grayscale"@) {
            default_image_api()
        } else {
            c.img_api_url
        },
        font_name: if is_builtin_font_id(c.font_name) {
            c.font_name
        } else {
            default_font_id()
        },
        ..c
    }
}

/// The Bible version used when the settings name none.
pub fn default_scripture_version() -> (v: String)
    ensures
        v@ == spec_default_scripture_version(),
{
    "和合本".to_owned()
}

impl Default for AppConfig {
    fn default() -> (c: Self)
        ensures
            c@ == default_config(),
    {
        AppConfig {
            font_size_bits: DEFAULT_FONT_SIZE_BITS,
            update_time: "06:00".to_owned(),
            font_name: default_font_name().to_owned(),
            wallpaper_mode: "bing".to_owned(),
            local_folder: String::new(),
            img_api_url: "https://picsum.photos/1920/1080".to_owned(),
            scripture_version: default_scripture_version(),
        }
    }
}

/// Settings text that names a legacy `font_path` but no `font_name` is
/// rewritten before it is read: the path goes and the default font comes in.
pub fn needs_font_name_migration(has_font_name: bool, has_font_path: bool) -> (b: bool)
    ensures
        b == (!has_font_name && has_font_path),
{
    !has_font_name && has_font_path
}

/// The settings text as it is read: a JSON object that names a legacy
/// `font_path` but no `font_name` gets `font_name` set to the default font and
/// loses `font_path`, and is printed again; any other text, and a text that
/// cannot be rewritten, is left as it is.
pub fn migrate_settings_text(data: &str) -> (out: String)
    ensures
        out@ == (if spec_json_has_key(data@, "font_name"@) == Some(false) && spec_json_has_key(
            data@,
            "font_path"@,
        ) == Some(true) {
            match spec_json_rename_key(data@, "font_path"@, "font_name"@, default_font_id()) {
                Some(s) => s,
                None => data@,
            }
        } else {
            data@
        }),
{
    let has_name = json_has_key(data, "font_name");
    let has_path = json_has_key(data, "font_path");
    match (has_name, has_path) {
        (Some(name), Some(path)) => {
            if needs_font_name_migration(name, path) {
                match json_rename_key(data, "font_path", "font_name", default_font_name()) {
                    Some(s) => s,
                    None => data.to_owned(),
                }
            } else {
                data.to_owned()
            }
        },
        _ => data.to_owned(),
    }
}

/// Repairs settings read back from disk (see `repaired`).
pub fn repair_config(c: AppConfig) -> (r: AppConfig)
    ensures
        r@ == repaired(c@),
{
    let mut c = c;
    if contains_str(c.img_api_url.as_str(), "grayscale") {
        c.img_api_url = "https://picsum.photos/1920/1080".to_owned();
    }
    if !is_builtin_font(c.font_name.as_str()) {
        c.font_name = default_font_name().to_owned();
    }
    c
}

/// The settings loaded from settings text: the parsed settings when the text
/// could be read as settings, the defaults otherwise, repaired either way.
pub fn config_from_parsed(parsed: Option<AppConfig>) -> (r: AppConfig)
    ensures
        r@ == repaired(
            match parsed {
                Some(c) => c@,
                None => default_config(),
            },
        ),
{
    match parsed {
        Some(c) => repair_config(c),
        None => repair_config(AppConfig::default()),
    }
}

/// The message returned when the settings are saved.
pub fn config_saved_message() -> (m: String)
    ensures
        m@ == "配置已成功保存"@,
{
    "配置已成功保存".to_owned()
}

/// Repairing twice repairs no more than repairing once.
pub proof fn lemma_repair_idempotent(c: ConfigView)
    ensures
        repaired(repaired(c)) == repaired(c),
{
    lemma_defaults_are_sound();
}

/// Repaired settings name a built-in font and a picture-service address that
/// does not mention `grayscale`; everything else is kept.
pub proof fn lemma_repair_result(c: ConfigView)
    ensures
        is_builtin_font_id(repaired(c).font_name),
        !contains_seq(repaired(c).img_api_url, "grayscale"@),
        repaired(c).font_size_bits == c.font_size_bits,
        repaired(c).update_time == c.update_time,
        repaired(c).wallpaper_mode == c.wallpaper_mode,
        repaired(c).local_folder == c.local_folder,
        repaired(c).scripture_version == c.scripture_version,
{
    lemma_defaults_are_sound();
}

/// The default font is built in and the default picture-service address does
/// not mention `grayscale`, so the default settings need no repair.
pub proof fn lemma_defaults_are_sound()
    ensures
        is_builtin_font_id(default_font_id()),
        !contains_seq(default_image_api(), "grayscale"@),
        repaired(default_config()) == default_config(),
{
    reveal_strlit("NotoSansSC");
    reveal_strlit("https://picsum.photos/1920/1080");
    reveal_strlit("grayscale");
    assert(crate::fonts::font_ids()[0] == default_font_id());
    assert forall|i: int| !crate::text::occurs_at(default_image_api(), "grayscale"@, i) by {
        if crate::text::occurs_at(default_image_api(), "grayscale"@, i) {
            let sub = default_image_api().subrange(i, i + 9);
            assert(sub[0] == 'g');
            assert(default_image_api()[i] == 'g');
        }
    }
}

/// Repair keeps a font that is built in and resets any other to 思源黑体: a
/// font id among `NotoSansSC`, `NotoSerifSC` and `LXGWWenKai` is kept as it
/// is, and any other becomes `NotoSansSC`.  A picture-service address that
/// mentions `grayscale` becomes `https://picsum.photos/1920/1080`, and any
/// other address is kept.
pub proof fn lemma_repair_keeps_builtin_font(c: ConfigView)
    ensures
        (c.font_name == "NotoSansSC"@ || c.font_name == "NotoSerifSC"@ || c.font_name
            == "LXGWWenKai"@) ==> repaired(c).font_name == c.font_name,
        !(c.font_name == "NotoSansSC"@ || c.font_name == "NotoSerifSC"@ || c.font_name
            == "LXGWWenKai"@) ==> repaired(c).font_name == "NotoSansSC"@,
        contains_seq(c.img_api_url, "grayscale"@) ==> repaired(c).img_api_url
            == "https://picsum.photos/1920/1080"@,
        !contains_seq(c.img_api_url, "grayscale"@) ==> repaired(c).img_api_url == c.img_api_url,
{
    let ids = crate::fonts::font_ids();
    assert(ids[0] == "NotoSansSC"@);
    assert(ids[1] == "NotoSerifSC"@);
    assert(ids[2] == "LXGWWenKai"@);
    assert(ids.len() == 3);
}

} // verus!
