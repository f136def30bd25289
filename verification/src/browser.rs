//! Simple lists of the files in a folder.
use crate::creator;
use crate::file_actions::Elapsed;
use crate::file_selection;
use crate::names::{self, file_extension};
use crate::paths::{self, path_file_name};
use crate::text::{self, chars_of, decimal_text, same_text, to_lowercase};
use vstd::prelude::*;

verus! {

/// The name at the end of a path.
pub fn get_file_name(path: &str, windows: bool) -> (r: Option<String>)
    ensures
        creator::str_view_owned(r) == paths::last_name(path@, windows),
{
    path_file_name(path, windows)
}

// What is shown as a picture.

/// The extensions of the files that are shown, each of them once.
#[derive(Debug)]
pub struct AppConfig {
    pub image_extensions: Vec<String>,
}

/// The extensions that a new configuration has.
pub open spec fn usual_extensions() -> Seq<Seq<char>> {
    seq!["jpg"@, "jpeg"@, "png"@, "gif"@]
}

impl Default for AppConfig {
    fn default() -> (r: Self)
        ensures
            file_selection::text_views(r.image_extensions@) == usual_extensions(),
    {
        let image_extensions: Vec<String> = vec![
            "jpg".to_owned(),
            "jpeg".to_owned(),
            "png".to_owned(),
            "gif".to_owned(),
        ];
        assert(file_selection::text_views(image_extensions@) =~= usual_extensions());
        AppConfig { image_extensions }
    }
}

impl AppConfig {
    /// A file is shown if it has an extension that is in the list, in small
    /// letters.
    pub open spec fn shows(self, name: Seq<char>) -> bool {
        match names::extension(name) {
            Some(e) => file_selection::text_views(self.image_extensions@).contains(
                text::lowercased(e),
            ),
            None => false,
        }
    }

    pub fn is_shown(&self, name: &str) -> (r: bool)
        ensures
            r == self.shows(name@),
    {
        let ext = match file_extension(name) {
            Some(e) => to_lowercase(e.as_str()),
            None => {
                return false;
            },
        };
        let ghost views = file_selection::text_views(self.image_extensions@);
        let n: usize = self.image_extensions.len();
        let mut i: usize = 0;
        while i < n
            invariant
                i <= n,
                n == self.image_extensions@.len(),
                views == file_selection::text_views(self.image_extensions@),
                names::extension(name@) is Some,
                ext@ == text::lowercased(names::extension(name@)->0),
                forall|k: int| 0 <= k < i ==> #[trigger] views[k] != ext@,
            decreases n - i,
        {
            assert(views[i as int] == self.image_extensions@[i as int]@);
            if same_text(self.image_extensions[i].as_str(), ext.as_str()) {
                assert(views.contains(ext@));
                return true;
            }
            i += 1;
        }
        false
    }

    /// The files of a folder that are shown.
    pub open spec fn shown(self, names: Seq<Seq<char>>, n: int) -> Seq<Seq<char>>
        decreases n,
    {
        if n <= 0 {
            Seq::empty()
        } else if self.shows(names[n - 1]) {
            self.shown(names, n - 1).push(names[n - 1])
        } else {
            self.shown(names, n - 1)
        }
    }

    pub fn shown_files(&self, names: &[String]) -> (r: Vec<String>)
        ensures
            file_selection::text_views(r@) == self.shown(
                file_selection::text_views(names@),
                names@.len() as int,
            ),
    {
        let ghost views = file_selection::text_views(names@);
        let n: usize = names.len();
        let mut out: Vec<String> = Vec::new();
        let mut i: usize = 0;
        assert(file_selection::text_views(out@) =~= self.shown(views, 0));
        while i < n
            invariant
                i <= n,
                n == names@.len(),
                views == file_selection::text_views(names@),
                file_selection::text_views(out@) == self.shown(views, i as int),
            decreases n - i,
        {
            assert(views[i as int] == names@[i as int]@);
            if self.is_shown(names[i].as_str()) {
                let ghost before = out@;
                let name = names[i].clone();
                out.push(name);
                assert(file_selection::text_views(out@) =~= file_selection::text_views(
                    before,
                ).push(name@));
            }
            i += 1;
        }
        out
    }
}

/// The usual configuration shows the files that are listed as pictures.
pub proof fn usual_configuration_shows_pictures(config: AppConfig, name: Seq<char>)
    requires
        file_selection::text_views(config.image_extensions@) == usual_extensions(),
    ensures
        config.shows(name) == creator::listed_name(name),
{
    let all = usual_extensions();
    let e = match names::extension(name) {
        Some(e) => text::lowercased(e),
        None => Seq::empty(),
    };
    assert(all[0] == "jpg"@ && all[1] == "jpeg"@ && all[2] == "png"@ && all[3] == "gif"@);
    assert(all.len() == 4);
    reveal_strlit("jpg");
    reveal_strlit("jpeg");
    reveal_strlit("png");
    reveal_strlit("gif");
    if creator::listed_name(name) {
        assert(e.len() > 0);
        assert(all.contains(e));
    }
    if config.shows(name) {
        let i = choose|i: int| 0 <= i < all.len() && all[i] == e;
        assert(i == 0 || i == 1 || i == 2 || i == 3);
    }
}

// A tree of folders.

/// A path with slashes only.
pub open spec fn with_slashes(path: Seq<char>) -> Seq<char> {
    Seq::new(
        path.len(),
        |i: int|
            if path[i] == '\\' {
                '/'
            } else {
                path[i]
            },
    )
}

/// The text of a folder in the tree.
pub fn tree_item(path: &str) -> (r: String)
    ensures
        r@ == with_slashes(path@),
{
    let chars = chars_of(path);
    let n: usize = chars.len();
    let mut out = String::new();
    let mut i: usize = 0;
    assert(out@ =~= with_slashes(path@).take(0));
    while i < n
        invariant
            i <= n,
            n == path@.len(),
            chars@ == path@,
            out@ == with_slashes(path@).take(i as int),
        decreases n - i,
    {
        if chars[i] == '\\' {
            out.push('/');
        } else {
            out.push(chars[i]);
        }
        i += 1;
        assert(out@ =~= with_slashes(path@).take(i as int));
    }
    assert(out@ =~= with_slashes(path@));
    out
}

/// The folders that lead to one, from the outermost; they are given from the
/// innermost.
pub fn tree_items(ancestors: &[String]) -> (r: Vec<String>)
    ensures
        r@.len() == ancestors@.len(),
        forall|i: int|
            0 <= i < r@.len() ==> (#[trigger] r@[i])@ == with_slashes(
                ancestors@[ancestors@.len() - 1 - i]@,
            ),
{
    let n: usize = ancestors.len();
    let mut out: Vec<String> = Vec::new();
    let mut i: usize = n;
    while i > 0
        invariant
            i <= n,
            n == ancestors@.len(),
            out@.len() == n - i,
            forall|k: int|
                0 <= k < out@.len() ==> (#[trigger] out@[k])@ == with_slashes(
                    ancestors@[n - 1 - k]@,
                ),
        decreases i,
    {
        out.push(tree_item(ancestors[i - 1].as_str()));
        i -= 1;
    }
    out
}

// A table of files.

#[derive(Debug)]
pub struct FileEntry {
    pub path: String,
    pub size: u64,
    pub modified: Option<Elapsed>,
    pub created: Option<Elapsed>,
    pub accessed: Option<Elapsed>,
    pub is_dir: bool,
}

#[derive(Debug)]
pub struct GuiApp {
    pub current_path: String,
    pub files: Vec<FileEntry>,
    pub selected: Option<usize>,
}

impl GuiApp {
    /// The selected file is in the table.
    pub open spec fn well_formed(self) -> bool {
        self.selected matches Some(i) ==> i < self.files@.len()
    }

    pub fn new(current_path: String, files: Vec<FileEntry>) -> (r: Self)
        ensures
            r.current_path == current_path,
            r.files == files,
            r.selected is None,
            r.well_formed(),
    {
        GuiApp { current_path, files, selected: None }
    }

    /// Shows the entries of the folder; a folder that cannot be read has none.
    pub fn load_folder(&mut self, entries: Option<Vec<FileEntry>>)
        ensures
            final(self).current_path == old(self).current_path,
            final(self).selected is None,
            final(self).files@ == match entries {
                Some(e) => e@,
                None => Seq::empty(),
            },
            final(self).well_formed(),
    {
        self.selected = None;
        self.files = match entries {
            Some(e) => e,
            None => Vec::new(),
        };
    }

    /// Selects a row of the table.
    pub fn select(&mut self, index: usize)
        requires
            index < old(self).files@.len(),
        ensures
            final(self).selected == Some(index),
            final(self).files == old(self).files,
            final(self).current_path == old(self).current_path,
            final(self).well_formed(),
    {
        self.selected = Some(index);
    }

    /// Opens a folder, whose entries are loaded next.
    pub fn open_folder(&mut self, path: String)
        ensures
            final(self).current_path == path,
            final(self).files == old(self).files,
            final(self).selected == old(self).selected,
    {
        self.current_path = path;
    }
}

/// The size of a file in kilobytes, rounded up.
pub open spec fn kilobytes_text(size: int) -> Seq<char> {
    if size == 0 {
        "0 KB"@
    } else {
        text::decimal(((size + 1023) / 1024) as nat) + " KB"@
    }
}

pub fn format_size_kb(size: u64) -> (r: String)
    requires
        size + 1023 <= u64::MAX,
    ensures
        r@ == kilobytes_text(size as int),
{
    if size == 0 {
        return "0 KB".to_owned();
    }
    let mut out = decimal_text((size + 1023) / 1024);
    out.append(" KB");
    out
}

/// What a row shows as the name of its entry: a folder stands in brackets.
pub fn entry_label(name: Option<&str>, is_dir: bool) -> (r: String)
    ensures
        r@ == match name {
            Some(n) => if is_dir {
                "["@ + n@ + "]"@
            } else {
                n@
            },
            None => ""@,
        },
{
    match name {
        Some(n) => if is_dir {
            let mut out = "[".to_owned();
            out.append(n);
            out.append("]");
            out
        } else {
            n.to_owned()
        },
        None => "".to_owned(),
    }
}

/// What is shown as the size of an entry.
pub fn entry_size(size: u64, is_dir: bool) -> (r: String)
    requires
        !is_dir ==> size + 1023 <= u64::MAX,
    ensures
        r@ == if is_dir {
            "Folder"@
        } else {
            kilobytes_text(size as int)
        },
{
    if is_dir {
        "Folder".to_owned()
    } else {
        format_size_kb(size)
    }
}

} // verus!
