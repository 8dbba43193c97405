//! Choosing the background picture: a random picture of a local folder, or a
//! random one of the pictures that the Bing picture archive lists.
use vstd::prelude::*;
use crate::json::{parse_bing_archive, spec_bing_archive};
use crate::random::random_below;
use crate::text::{eq_ignore_case, str_eq_ignore_case, string_views};

verus! {

/// What the folder listing tells of one folder entry.
pub struct DirEntryInfo {
    /// The entry's full path.
    pub path: String,
    /// The entry is a regular file.
    pub is_file: bool,
    /// The extension of the entry's name, when it has one that is valid text.
    pub extension: Option<String>,
}

/// A folder entry as plain values: path, is a file, extension.
pub type EntryView = (Seq<char>, bool, Option<Seq<char>>);

impl View for DirEntryInfo {
    type V = EntryView;

    open spec fn view(&self) -> EntryView {
        (
            self.path@,
            self.is_file,
            match self.extension {
                Some(e) => Some(e@),
                None => None,
            },
        )
    }
}

/// `ext` is `jpg`, `jpeg` or `png`, in any ASCII case.
pub open spec fn is_picture_extension(ext: Seq<char>) -> bool {
    eq_ignore_case(ext, "jpg"@) || eq_ignore_case(ext, "jpeg"@) || eq_ignore_case(ext, "png"@)
}

/// The entry is a file with a picture extension.
pub open spec fn is_picture_entry(e: EntryView) -> bool {
    e.1 && match e.2 {
        Some(ext) => is_picture_extension(ext),
        None => false,
    }
}

/// The paths of the picture entries, in listing order.
pub open spec fn picture_paths(entries: Seq<EntryView>) -> Seq<Seq<char>>
    decreases entries.len(),
{
    if entries.len() == 0 {
        Seq::empty()
    } else {
        let rest = picture_paths(entries.drop_last());
        if is_picture_entry(entries.last()) {
            rest.push(entries.last().0)
        } else {
            rest
        }
    }
}

pub open spec fn entry_views(entries: Seq<DirEntryInfo>) -> Seq<EntryView> {
    entries.map_values(|e: DirEntryInfo| e@)
}

/// The message when a folder holds no picture.
pub open spec fn no_picture_message() -> Seq<char> {
    "该文件夹下未找到 jpg 或 png 格式的图片"@
}

/// `ext` is `jpg`, `jpeg` or `png`, in any ASCII case.
pub fn is_picture_ext(ext: &str) -> (b: bool)
    ensures
        b == is_picture_extension(ext@),
{
    str_eq_ignore_case(ext, "jpg") || str_eq_ignore_case(ext, "jpeg") || str_eq_ignore_case(
        ext,
        "png",
    )
}

/// The paths of the entries that are files with a picture extension, in order.
pub fn picture_files(entries: &Vec<DirEntryInfo>) -> (paths: Vec<String>)
    ensures
        string_views(paths@) == picture_paths(entry_views(entries@)),
{
    let mut paths: Vec<String> = Vec::new();
    let mut i: usize = 0;
    while i < entries.len()
        invariant
            i <= entries.len(),
            string_views(paths@) == picture_paths(entry_views(entries@).take(i as int)),
        decreases entries.len() - i,
    {
        let e = &entries[i];
        let keep = e.is_file && match &e.extension {
            Some(ext) => is_picture_ext(ext.as_str()),
            None => false,
        };
        proof {
            let pre = entry_views(entries@).take(i as int);
            let next = entry_views(entries@).take(i + 1);
            assert(next.drop_last() =~= pre);
            assert(next.last() == entries@[i as int]@);
            assert(keep == is_picture_entry(next.last()));
        }
        if keep {
            paths.push(e.path.clone());
        }
        proof {
            let next = entry_views(entries@).take(i + 1);
            assert(string_views(paths@) =~= picture_paths(next));
        }
        i = i + 1;
    }
    assert(entry_views(entries@).take(entries.len() as int) =~= entry_views(entries@));
    paths
}

/// A random picture of the folder listing, or the message that it holds none.
pub fn pick_local_picture(entries: &Vec<DirEntryInfo>) -> (res: Result<String, String>)
    ensures
        res is Err <==> picture_paths(entry_views(entries@)).len() == 0,
        res matches Err(e) ==> e@ == no_picture_message(),
        res matches Ok(p) ==> picture_paths(entry_views(entries@)).contains(p@),
{
    let pictures = picture_files(entries);
    if pictures.len() == 0 {
        return Err("该文件夹下未找到 jpg 或 png 格式的图片".to_owned());
    }
    let idx = random_below(pictures.len() as u64) as usize;
    let chosen = pictures[idx].clone();
    assert(string_views(pictures@)[idx as int] == chosen@);
    Ok(chosen)
}

/// The picture extensions in their lower- and upper-case spellings.
pub open spec fn plain_picture_extension(ext: Seq<char>) -> bool {
    ||| ext == "jpg"@
    ||| ext == "jpeg"@
    ||| ext == "png"@
    ||| ext == "JPG"@
    ||| ext == "JPEG"@
    ||| ext == "PNG"@
}

proof fn lemma_plain_extensions_are_pictures(ext: Seq<char>)
    requires
        plain_picture_extension(ext),
    ensures
        is_picture_extension(ext),
{
    reveal_strlit("jpg");
    reveal_strlit("jpeg");
    reveal_strlit("png");
    reveal_strlit("JPG");
    reveal_strlit("JPEG");
    reveal_strlit("PNG");
    if ext == "JPG"@ {
        assert(eq_ignore_case(ext, "jpg"@));
    } else if ext == "JPEG"@ {
        assert(eq_ignore_case(ext, "jpeg"@));
    } else if ext == "PNG"@ {
        assert(eq_ignore_case(ext, "png"@));
    } else if ext == "jpg"@ {
        assert(eq_ignore_case(ext, "jpg"@));
    } else if ext == "jpeg"@ {
        assert(eq_ignore_case(ext, "jpeg"@));
    } else {
        assert(eq_ignore_case(ext, "png"@));
    }
}

/// No picture of the folder is missed: every file whose extension is `jpg`,
/// `jpeg` or `png`, in lower or upper case, is among the pictures that the
/// listing gives.
pub proof fn lemma_picture_files_are_listed(entries: Seq<EntryView>, i: int)
    requires
        0 <= i < entries.len(),
        entries[i].1,
        entries[i].2 matches Some(ext) && plain_picture_extension(ext),
    ensures
        picture_paths(entries).contains(entries[i].0),
    decreases entries.len(),
{
    let ext = entries[i].2->0;
    lemma_plain_extensions_are_pictures(ext);
    let rest = picture_paths(entries.drop_last());
    if i == entries.len() - 1 {
        assert(entries.last() == entries[i]);
        assert(rest.push(entries[i].0)[rest.len() as int] == entries[i].0);
    } else {
        assert(entries.drop_last()[i] == entries[i]);
        lemma_picture_files_are_listed(entries.drop_last(), i);
        let k = choose|k: int| 0 <= k < rest.len() && rest[k] == entries[i].0;
        if is_picture_entry(entries.last()) {
            assert(rest.push(entries.last().0)[k] == entries[i].0);
        }
    }
}

/// Every picture that the folder listing gives is a file with a picture
/// extension.
pub proof fn lemma_picture_paths_are_pictures(entries: Seq<EntryView>, p: Seq<char>)
    requires
        picture_paths(entries).contains(p),
    ensures
        exists|i: int| 0 <= i < entries.len() && entries[i].0 == p && is_picture_entry(entries[i]),
    decreases entries.len(),
{
    let rest = picture_paths(entries.drop_last());
    if is_picture_entry(entries.last()) && p == entries.last().0 {
        assert(entries[entries.len() - 1] == entries.last());
    } else {
        if is_picture_entry(entries.last()) {
            let k = choose|k: int| 0 <= k < rest.push(entries.last().0).len() && rest.push(entries.last().0)[k] == p;
            assert(rest[k] == p);
        }
        assert(rest.contains(p));
        lemma_picture_paths_are_pictures(entries.drop_last(), p);
        let i = choose|i: int| 0 <= i < entries.drop_last().len() && entries.drop_last()[i].0 == p
            && is_picture_entry(entries.drop_last()[i]);
        assert(entries[i] == entries.drop_last()[i]);
    }
}

/// The address of the Bing picture archive: up to thirty of the newest
/// pictures of the zh-CN market, newest first, as JSON; a pick draws from the
/// first `RECENT_PICTURES` of them.
pub fn bing_archive_url() -> (url: &'static str)
    ensures
        url@ == "https://www.bing.com/HPImageArchive.aspx?format=js&idx=0&n=30&mkt=zh-CN"@,
{
    "https://www.bing.com/HPImageArchive.aspx?format=js&idx=0&n=30&mkt=zh-CN"
}

/// The picture list of an archive reply as plain values: absent when the reply
/// has no list, and for each picture its relative address when it has one.
pub open spec fn archive_view(images: Option<Vec<Option<String>>>) -> Option<Seq<Option<Seq<char>>>> {
    match images {
        Some(v) => Some(
            v@.map_values(
                |o: Option<String>|
                    match o {
                        Some(s) => Some(s@),
                        None => None,
                    },
            ),
        ),
        None => None,
    }
}

pub open spec fn result_view(r: Result<String, String>) -> Result<Seq<char>, Seq<char>> {
    match r {
        Ok(s) => Ok(s@),
        Err(e) => Err(e@),
    }
}

/// The full address of picture `idx` of the archive reply, or the message for
/// what the reply lacks.
pub open spec fn archive_pick(images: Option<Seq<Option<Seq<char>>>>, idx: int) -> Result<
    Seq<char>,
    Seq<char>,
> {
    match images {
        None => Err("无法从 Bing 数据中提取图片列表"@),
        Some(v) => if v.len() == 0 {
            Err("Bing 未返回任何壁纸"@)
        } else {
            match v[idx] {
                Some(p) => Ok("https://www.bing.com"@ + p),
                None => Err("无法从 Bing 数据中提取 URL"@),
            }
        },
    }
}

/// The full address of picture `idx` of the archive reply (see `archive_pick`).
pub fn archive_picture_at(images: &Option<Vec<Option<String>>>, idx: usize) -> (res: Result<
    String,
    String,
>)
    requires
        (match images {
            Some(v) => v.len() > 0 ==> idx < v.len(),
            None => true,
        }),
    ensures
        result_view(res) == archive_pick(archive_view(*images), idx as int),
{
    match images {
        None => Err("无法从 Bing 数据中提取图片列表".to_owned()),
        Some(v) => {
            if v.len() == 0 {
                Err("Bing 未返回任何壁纸".to_owned())
            } else {
                match &v[idx] {
                    Some(p) => {
                        let mut url = "https://www.bing.com".to_owned();
                        url.append(p.as_str());
                        Ok(url)
                    },
                    None => Err("无法从 Bing 数据中提取 URL".to_owned()),
                }
            }
        },
    }
}

/// How many of the archive's newest pictures (those of the last days) a
/// random pick draws from.
pub const RECENT_PICTURES: usize = 7;

/// The indices a random pick may draw for an archive list of `len` pictures:
/// the first `RECENT_PICTURES` of them (the archive lists the newest first),
/// or only index 0 when the list is empty.
pub open spec fn recent_index(len: int, idx: int) -> bool {
    &&& 0 <= idx
    &&& len > 0 ==> idx < len && idx < RECENT_PICTURES
    &&& len == 0 ==> idx == 0
}

/// A random picture of the last days from the archive reply (see
/// `archive_pick`): the reply's defects give their messages, and otherwise
/// one of its first `RECENT_PICTURES` pictures is chosen.
pub fn pick_archive_picture(images: &Option<Vec<Option<String>>>) -> (res: Result<String, String>)
    ensures
        exists|idx: int|
            #![trigger archive_pick(archive_view(*images), idx)]
            (match images {
                Some(v) => recent_index(v.len() as int, idx),
                None => idx == 0,
            }) && result_view(res) == archive_pick(archive_view(*images), idx),
{
    let idx = match images {
        Some(v) => {
            if v.len() > 0 {
                let span: usize = if v.len() < RECENT_PICTURES {
                    v.len()
                } else {
                    RECENT_PICTURES
                };
                random_below(span as u64) as usize
            } else {
                0
            }
        },
        None => 0,
    };
    let res = archive_picture_at(images, idx);
    assert(result_view(res) == archive_pick(archive_view(*images), idx as int));
    res
}

/// The message for an archive reply that is not JSON: the prefix of a
/// failed parse and the text of a failed decode of a reply body.
pub open spec fn archive_decode_error() -> Seq<char> {
    "解析 JSON 失败: error decoding response body"@
}

/// A random picture of the last days from the archive reply `body`: a body
/// that is not JSON gives `archive_decode_error()`, and a parsed reply is
/// picked from as `pick_archive_picture` does.
pub fn pick_bing_picture(body: &[u8]) -> (res: Result<String, String>)
    ensures
        match spec_bing_archive(body@) {
            None => result_view(res) == Err::<Seq<char>, Seq<char>>(archive_decode_error()),
            Some(images) => exists|idx: int|
                #![trigger archive_pick(images, idx)]
                (match images {
                    Some(v) => recent_index(v.len() as int, idx),
                    None => idx == 0,
                }) && result_view(res) == archive_pick(images, idx),
        },
{
    match parse_bing_archive(body) {
        None => Err("解析 JSON 失败: error decoding response body".to_owned()),
        Some(images) => {
            let res = pick_archive_picture(&images);
            proof {
                let idx = choose|idx: int|
                    #![trigger archive_pick(archive_view(images), idx)]
                    (match images {
                        Some(v) => recent_index(v.len() as int, idx),
                        None => idx == 0,
                    }) && result_view(res) == archive_pick(archive_view(images), idx);
                assert(archive_pick(archive_view(images), idx) == result_view(res));
            }
            res
        },
    }
}

/// The message after a downloaded picture is saved at `path`.
pub fn download_saved_message(path: &str) -> (m: String)
    ensures
        m@ == "图片下载成功至: "@ + path@,
{
    let mut m = "图片下载成功至: ".to_owned();
    m.append(path);
    m
}

/// The message after the Bing picture is saved at `path`.
pub fn archive_saved_message(path: &str) -> (m: String)
    ensures
        m@ == "Bing 壁纸已成功拉取至: "@ + path@,
{
    let mut m = "Bing 壁纸已成功拉取至: ".to_owned();
    m.append(path);
    m
}

} // verus!
