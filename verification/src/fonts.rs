//! The registry of built-in caption fonts and the decisions around fetching
//! one: looking a font up by id, the message for an unknown id, and the check
//! of the download's HTTP status.
use vstd::prelude::*;
use crate::text::{join, join_strs, str_eq};

verus! {

/// A font that the tool can download and use for captions.
#[derive(Clone, Copy, Debug)]
pub struct FontInfo {
    /// The id by which settings and the user interface name the font.
    pub id: &'static str,
    /// The name shown to the user.
    pub display_name: &'static str,
    /// The name of the font file in the local font folder.
    pub filename: &'static str,
    /// Where the font file is downloaded from.
    pub url: &'static str,
}

/// A font as four texts: id, display name, file name, download address.
pub type FontView = (Seq<char>, Seq<char>, Seq<char>, Seq<char>);

impl View for FontInfo {
    type V = FontView;

    open spec fn view(&self) -> FontView {
        (self.id@, self.display_name@, self.filename@, self.url@)
    }
}

/// The built-in fonts, in the order in which they are offered.
pub open spec fn builtin_font_table() -> Seq<FontView> {
    seq![
        (
            "NotoSansSC"@,
            "思源黑体 Noto Sans SC"@,
            "NotoSansSC-Regular.ttf"@,
            "https://fonts.gstatic.com/s/notosanssc/v40/k3kCo84MPvpLmixcA63oeAL7Iqp5IZJF9bmaG9_FnYw.ttf"@,
        ),
        (
            "NotoSerifSC"@,
            "思源宋体 Noto Serif SC"@,
            "NotoSerifSC-Regular.ttf"@,
            "https://fonts.gstatic.com/s/notoserifsc/v35/H4cyBXePl9DZ0Xe7gG9cyOj7uK2-n-D2rd4FY7SCqyWv.ttf"@,
        ),
        (
            "LXGWWenKai"@,
            "霞鹜文楷 LXGW WenKai"@,
            "LXGWWenKai-Regular.ttf"@,
            "https://github.com/lxgw/LxgwWenKai/releases/download/v1.522/LXGWWenKai-Regular.ttf"@,
        ),
    ]
}

/// The ids of the built-in fonts, in order.
pub open spec fn font_ids() -> Seq<Seq<char>> {
    builtin_font_table().map_values(|f: FontView| f.0)
}

/// `name` is the id of a built-in font.
pub open spec fn is_builtin_font_id(name: Seq<char>) -> bool {
    exists|i: int| 0 <= i < font_ids().len() && font_ids()[i] == name
}

/// The id of the font used when a setting names no known font.
pub open spec fn default_font_id() -> Seq<char> {
    "NotoSansSC"@
}

/// The message for a font id that is not built in: it names the id and lists
/// the ids that are, separated by a comma and a space.
pub open spec fn unknown_font_message(name: Seq<char>) -> Seq<char> {
    "未知字体: "@ + name + "，可选字体: "@ + join(font_ids(), ", "@)
}

/// The id of the font used when a setting names no known font.
pub fn default_font_name() -> (id: &'static str)
    ensures
        id@ == default_font_id(),
{
    "NotoSansSC"
}

/// The built-in fonts.
pub fn builtin_fonts() -> (fonts: Vec<FontInfo>)
    ensures
        fonts@.map_values(|f: FontInfo| f@) == builtin_font_table(),
{
    let fonts = vec![
        FontInfo {
            id: "NotoSansSC",
            display_name: "思源黑体 Noto Sans SC",
            filename: "NotoSansSC-Regular.ttf",
            url: "https://fonts.gstatic.com/s/notosanssc/v40/k3kCo84MPvpLmixcA63oeAL7Iqp5IZJF9bmaG9_FnYw.ttf",
        },
        FontInfo {
            id: "NotoSerifSC",
            display_name: "思源宋体 Noto Serif SC",
            filename: "NotoSerifSC-Regular.ttf",
            url: "https://fonts.gstatic.com/s/notoserifsc/v35/H4cyBXePl9DZ0Xe7gG9cyOj7uK2-n-D2rd4FY7SCqyWv.ttf",
        },
        FontInfo {
            id: "LXGWWenKai",
            display_name: "霞鹜文楷 LXGW WenKai",
            filename: "LXGWWenKai-Regular.ttf",
            url: "https://github.com/lxgw/LxgwWenKai/releases/download/v1.522/LXGWWenKai-Regular.ttf",
        },
    ];
    assert(fonts@.map_values(|f: FontInfo| f@) =~= builtin_font_table());
    fonts
}

/// The ids of the built-in fonts, joined by a comma and a space.
pub fn font_ids_joined() -> (s: String)
    ensures
        s@ == join(font_ids(), ", "@),
{
    let fonts = builtin_fonts();
    let mut ids: Vec<&str> = Vec::new();
    let mut i: usize = 0;
    while i < fonts.len()
        invariant
            fonts@.map_values(|f: FontInfo| f@) == builtin_font_table(),
            i <= fonts.len(),
            ids@.len() == i,
            forall|k: int| 0 <= k < i ==> #[trigger] ids@[k]@ == font_ids()[k],
        decreases fonts.len() - i,
    {
        ids.push(fonts[i].id);
        proof {
            assert(fonts@.map_values(|f: FontInfo| f@)[i as int] == fonts@[i as int]@);
        }
        i = i + 1;
    }
    assert(ids@.map_values(|p: &str| p@) =~= font_ids());
    join_strs(&ids, ", ")
}

/// The built-in font with id `name`, or the message that lists the ids when
/// there is none.
pub fn find_font(name: &str) -> (res: Result<FontInfo, String>)
    ensures
        res is Ok <==> is_builtin_font_id(name@),
        res matches Ok(f) ==> exists|i: int|
            0 <= i < builtin_font_table().len() && builtin_font_table()[i] == f@
                && f@.0 == name@ && forall|j: int| 0 <= j < i ==> font_ids()[j] != name@,
        res matches Err(e) ==> e@ == unknown_font_message(name@),
{
    let fonts = builtin_fonts();
    let mut i: usize = 0;
    while i < fonts.len()
        invariant
            fonts@.map_values(|f: FontInfo| f@) == builtin_font_table(),
            i <= fonts.len(),
            forall|j: int| 0 <= j < i ==> font_ids()[j] != name@,
        decreases fonts.len() - i,
    {
        proof {
            assert(fonts@.map_values(|f: FontInfo| f@)[i as int] == fonts@[i as int]@);
        }
        if str_eq(fonts[i].id, name) {
            assert(font_ids()[i as int] == name@);
            return Ok(fonts[i]);
        }
        i = i + 1;
    }
    let mut msg = "未知字体: ".to_owned();
    msg.append(name);
    msg.append("，可选字体: ");
    let ids = font_ids_joined();
    msg.append(ids.as_str());
    Err(msg)
}

/// `name` is the id of a built-in font.
pub fn is_builtin_font(name: &str) -> (b: bool)
    ensures
        b == is_builtin_font_id(name@),
{
    find_font(name).is_ok()
}

/// The outcome of a font download by its HTTP status: success for a code in
/// 200..=299, otherwise the message that shows the status as `status_text`.
pub fn font_download_status(code: u16, status_text: &str) -> (res: Result<(), String>)
    ensures
        res is Ok <==> 200 <= code <= 299,
        res matches Err(e) ==> e@ == "字体下载失败 (HTTP "@ + status_text@ + ")"@,
{
    if 200 <= code && code <= 299 {
        Ok(())
    } else {
        let mut msg = "字体下载失败 (HTTP ".to_owned();
        msg.append(status_text);
        msg.append(")");
        Err(msg)
    }
}

/// Each built-in font is stored under its own file: the file name of every
/// built-in font is its id followed by `-Regular.ttf`, and no two built-in
/// fonts share an id, so no two share a file name.
pub proof fn lemma_font_files_follow_ids()
    ensures
        forall|i: int|
            0 <= i < builtin_font_table().len() ==> #[trigger] builtin_font_table()[i].2
                == builtin_font_table()[i].0 + "-Regular.ttf"@,
        forall|i: int, j: int|
            0 <= i < builtin_font_table().len() && 0 <= j < builtin_font_table().len() && i != j
                ==> #[trigger] builtin_font_table()[i].0 != #[trigger] builtin_font_table()[j].0
                && builtin_font_table()[i].2 != builtin_font_table()[j].2,
{
    reveal_strlit("NotoSansSC");
    reveal_strlit("NotoSerifSC");
    reveal_strlit("LXGWWenKai");
    reveal_strlit("-Regular.ttf");
    reveal_strlit("NotoSansSC-Regular.ttf");
    reveal_strlit("NotoSerifSC-Regular.ttf");
    reveal_strlit("LXGWWenKai-Regular.ttf");
    let t = builtin_font_table();
    assert(t[0].2 =~= t[0].0 + "-Regular.ttf"@);
    assert(t[1].2 =~= t[1].0 + "-Regular.ttf"@);
    assert(t[2].2 =~= t[2].0 + "-Regular.ttf"@);
    assert(t[0].0[5] != t[1].0[5]);
    assert(t[0].0[0] != t[2].0[0]);
    assert(t[1].0[0] != t[2].0[0]);
    assert(t[0].2[5] != t[1].2[5]);
    assert(t[0].2[0] != t[2].2[0]);
    assert(t[1].2[0] != t[2].2[0]);
}

} // verus!
