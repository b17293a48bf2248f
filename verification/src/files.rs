//! Files maps: the contents of a files container, from the normalised name of each
//! file to its item (link, type, size, modification and creation times).
//!
//! Building a map from local files, and synchronising a map with local files, are
//! driven by the caller, which reads the file system and uploads the files: this
//! module decides, from what the caller reports, what each file becomes.
use vstd::prelude::*;

use crate::nrs::{clone_pairs, pairs_get, pairs_view};
use crate::table::{table_get, table_insert, table_remove, table_view};
use crate::text::{
    decimal, has_prefix, owned, push_decimal, push_str, replace_all, replace_str, split_chars,
    split_on, str_equals, str_starts_with, str_to_chars, views,
};

verus! {

/// Type tag of the append-only data that holds a files container.
pub const FILES_CONTAINER_TYPE_TAG: u64 = 10_100;

/// Native data type of a files container.
pub const FILES_CONTAINER_NATIVE_TYPE: &'static str = "AppendOnlyData";

/// Sign of a file that was added.
pub const FILE_ADDED_SIGN: &'static str = "+";

/// Sign of a file that was updated.
pub const FILE_UPDATED_SIGN: &'static str = "*";

/// Sign of a file that was deleted.
pub const FILE_DELETED_SIGN: &'static str = "-";

/// Sign of a file that could not be processed.
pub const FILE_ERROR_SIGN: &'static str = "E";

/// Message of the error for an address that holds no files container.
pub const ERROR_MSG_NO_FILES_CONTAINER_FOUND: &'static str = "No FilesContainer found at this address";

/// Field of a file item that holds the XOR-URL of the file's contents.
pub const FILES_MAP_PREDICATE_LINK: &'static str = "link";

/// Field of a file item that holds the file's type (its extension).
pub const FILES_MAP_PREDICATE_TYPE: &'static str = "type";

/// Field of a file item that holds the file's size in bytes.
pub const FILES_MAP_PREDICATE_SIZE: &'static str = "size";

/// Field of a file item that holds its modification time.
pub const FILES_MAP_PREDICATE_MODIFIED: &'static str = "modified";

/// Field of a file item that holds its creation time.
pub const FILES_MAP_PREDICATE_CREATED: &'static str = "created";

/// The fields of a file (the last occurrence of a field wins).
pub type FileItem = Vec<(String, String)>;

/// Files by normalised name (the last occurrence of a name wins).
pub type FilesMap = Vec<(String, FileItem)>;

/// Local paths processed, each with its sign and its link (or error).
pub type ProcessedFiles = Vec<(String, (String, String))>;

/// The contents of a files map.
pub open spec fn files_map_view(m: Seq<(String, FileItem)>) -> Map<Seq<char>, Map<Seq<char>, Seq<char>>> {
    table_view(m).map_values(|fi: FileItem| pairs_view(fi@))
}

/// The contents of a list of processed files.
pub open spec fn processed_files_view(p: Seq<(String, (String, String))>) -> Map<Seq<char>, (Seq<char>, Seq<char>)> {
    table_view(p).map_values(|e: (String, String)| (e.0@, e.1@))
}

/// A path with `\` separators turned into `/`.
pub open spec fn normalised_v(path: Seq<char>) -> Seq<char> {
    replace_all(path, "\\"@, "/"@)
}

/// Whether an entry met while walking a folder is visited: the folder itself, or
/// an entry whose name is valid unicode and does not start with `.`.
pub fn is_not_hidden(file_name: Option<&str>, depth: usize) -> (res: bool)
    ensures
        res == match file_name {
            None => false,
            Some(n) => depth == 0 || !has_prefix(n@, "."@),
        },
{
    match file_name {
        None => false,
        Some(n) => depth == 0 || !str_starts_with(n, "."),
    }
}

/// The number of processed entries whose sign is not the error sign.
pub open spec fn success_count_v(p: Seq<(String, (String, String))>) -> nat
    decreases p.len(),
{
    if p.len() == 0 {
        0
    } else {
        success_count_v(p.drop_last()) + if p.last().1.0@ == FILE_ERROR_SIGN@ {
            0nat
        } else {
            1nat
        }
    }
}

proof fn lemma_success_count_bound(p: Seq<(String, (String, String))>)
    ensures
        success_count_v(p) <= p.len(),
    decreases p.len(),
{
    if p.len() > 0 {
        lemma_success_count_bound(p.drop_last());
    }
}

/// Counts the processed entries that did not fail.
pub fn processed_success_count(processed: &ProcessedFiles) -> (res: u64)
    ensures
        res == success_count_v(processed@),
{
    let mut count: u64 = 0;
    let mut i: usize = 0;
    while i < processed.len()
        invariant
            i <= processed@.len(),
            count == success_count_v(processed@.take(i as int)),
        decreases processed@.len() - i,
    {
        proof {
            let t = processed@.take(i + 1);
            assert(t.drop_last() =~= processed@.take(i as int));
            lemma_success_count_bound(processed@.take(i as int));
        }
        if !str_equals(processed[i].1.0.as_str(), FILE_ERROR_SIGN) {
            count = count + 1;
        }
        i = i + 1;
    }
    proof {
        assert(processed@.take(processed@.len() as int) =~= processed@);
    }
    count
}

/// Turns the `\` separators of a path into `/`.
pub fn normalise_path_separator(from: &str) -> (res: String)
    ensures
        res@ == normalised_v(from@),
{
    replace_str(from, "\\", "/")
}

/// The longest common leading path of some paths, component-wise
/// (`common_path::common_path_all`); `None` for no path.
pub uninterp spec fn common_path_of(paths: Seq<Seq<char>>) -> Option<Seq<char>>;

/// Computes the common leading path of some paths with
/// `common_path::common_path_all`; the contract claims only that the result is the
/// one named for the paths given.
#[verifier::external_body]
fn common_path_all(paths: &Vec<String>) -> (res: Option<String>)
    ensures
        match res {
            Some(p) => common_path_of(views(paths@)) == Some(p@),
            None => common_path_of(views(paths@)) is None,
        },
{
    common_path::common_path_all(paths.iter().map(|p| std::path::Path::new(p.as_str()))).map(
        |p| p.to_string_lossy().into_owned(),
    )
}

/// A relative path with its `.` and `..` components resolved and its empty
/// components dropped (`relative_path::RelativePath::normalize`).
pub uninterp spec fn relative_normalized(path: Seq<char>) -> Seq<char>;

/// Normalises a relative path with `relative_path::RelativePath::normalize`; the
/// contract claims only that the result is the one named for the path given.
#[verifier::external_body]
fn relative_normalize(path: &str) -> (res: String)
    ensures
        res@ == relative_normalized(path@),
{
    relative_path::RelativePath::new(path).normalize().as_str().to_string()
}

/// The base path of a container: the root path given, with `/` separators and a
/// leading `/`.
pub open spec fn base_path_v(root_path: Seq<char>) -> Seq<char> {
    if has_prefix(normalised_v(root_path), "/"@) {
        normalised_v(root_path)
    } else {
        "/"@ + normalised_v(root_path)
    }
}

/// The prefix of the local paths that the base path stands for: their common
/// path, with `/` separators, when there is more than one path, and `/` otherwise.
pub open spec fn path_prefix_v(paths: Seq<Seq<char>>) -> Seq<char> {
    if paths.len() > 1 {
        normalised_v(
            match common_path_of(paths) {
                Some(p) => p,
                None => Seq::empty(),
            },
        )
    } else {
        "/"@
    }
}

/// The local paths of a list of processed files, in order.
pub open spec fn processed_paths(p: Seq<(String, (String, String))>) -> Seq<Seq<char>> {
    p.map_values(|e: (String, (String, String))| e.0@)
}

/// The base path and the prefix of local paths of a container built from `new_content`.
pub fn gen_normalised_paths(new_content: &ProcessedFiles, root_path: String) -> (res: (String, String))
    ensures
        res.0@ == base_path_v(root_path@),
        res.1@ == path_prefix_v(processed_paths(new_content@)),
{
    let normalised = normalise_path_separator(root_path.as_str());
    let base_path = if str_starts_with(normalised.as_str(), "/") {
        normalised
    } else {
        let mut b = owned("/");
        push_str(&mut b, normalised.as_str());
        b
    };
    let normalised_prefix = if new_content.len() > 1 {
        let mut paths: Vec<String> = Vec::new();
        let mut i: usize = 0;
        while i < new_content.len()
            invariant
                i <= new_content@.len(),
                paths@.len() == i,
                views(paths@) == processed_paths(new_content@).take(i as int),
            decreases new_content@.len() - i,
        {
            let ghost before = paths@;
            paths.push(new_content[i].0.clone());
            proof {
                assert forall|j: int| 0 <= j < i + 1 implies views(paths@)[j] == processed_paths(
                    new_content@,
                ).take(i + 1)[j] by {
                    if j < i {
                        assert(paths@[j] == before[j]);
                        assert(views(before)[j] == processed_paths(new_content@).take(i as int)[j]);
                    }
                }
                assert(views(paths@) =~= processed_paths(new_content@).take(i + 1));
            }
            i = i + 1;
        }
        proof {
            assert(processed_paths(new_content@).take(new_content@.len() as int) =~= processed_paths(
                new_content@,
            ));
        }
        let prefix = match common_path_all(&paths) {
            Some(p) => p,
            None => String::new(),
        };
        proof {
            reveal_strlit("");
        }
        normalise_path_separator(prefix.as_str())
    } else {
        owned("/")
    };
    (base_path, normalised_prefix)
}

/// The name under which a local path is stored in a container: the path with its
/// prefix replaced by the base path, normalised, with `/` separators and a leading `/`.
pub open spec fn file_name_v(path: Seq<char>, prefix: Seq<char>, base_path: Seq<char>) -> Seq<char> {
    "/"@ + normalised_v(relative_normalized(replace_all(path, prefix, base_path)))
}

/// The name under which a local path is stored in a container (see `file_name_v`).
pub fn gen_file_name(path: &str, prefix: &str, base_path: &str) -> (res: String)
    ensures
        res@ == file_name_v(path@, prefix@, base_path@),
{
    let replaced = replace_str(path, prefix, base_path);
    let relative = relative_normalize(replaced.as_str());
    let mut res = owned("/");
    let normalised = normalise_path_separator(relative.as_str());
    push_str(&mut res, normalised.as_str());
    res
}

/// The fields of a file item.
pub open spec fn file_item_v(
    link: Seq<char>,
    file_type: Seq<char>,
    file_size: Seq<char>,
    modified: Seq<char>,
    created: Seq<char>,
) -> Map<Seq<char>, Seq<char>> {
    Map::empty().insert("link"@, link).insert("type"@, file_type).insert("size"@, file_size).insert(
        "modified"@,
        modified,
    ).insert("created"@, created)
}

/// A file item with its fields.
pub fn file_item(link: &str, file_type: &str, file_size: &str, modified: &str, created: &str) -> (res: FileItem)
    ensures
        pairs_view(res@) == file_item_v(link@, file_type@, file_size@, modified@, created@),
{
    let mut item: FileItem = Vec::new();
    item.push((owned(FILES_MAP_PREDICATE_LINK), owned(link)));
    item.push((owned(FILES_MAP_PREDICATE_TYPE), owned(file_type)));
    item.push((owned(FILES_MAP_PREDICATE_SIZE), owned(file_size)));
    item.push((owned(FILES_MAP_PREDICATE_MODIFIED), owned(modified)));
    item.push((owned(FILES_MAP_PREDICATE_CREATED), owned(created)));
    proof {
        reveal_with_fuel(pairs_view, 6);
        let s = item@;
        assert(s.drop_last().drop_last().drop_last().drop_last().drop_last() =~= Seq::<(String, String)>::empty());
        assert(s.drop_last().drop_last().drop_last().drop_last().last() == s[0]);
        assert(s.drop_last().drop_last().drop_last().last() == s[1]);
        assert(s.drop_last().drop_last().last() == s[2]);
        assert(s.drop_last().last() == s[3]);
    }
    item
}

/// The item of a file uploaded to `xorurl`: modified `now`, and created at
/// `file_created` if given (an update keeps the creation time), `now` otherwise.
pub fn gen_new_file_item(
    xorurl: &str,
    file_type: &str,
    file_size: &str,
    now: &str,
    file_created: Option<&str>,
) -> (res: FileItem)
    ensures
        pairs_view(res@) == file_item_v(
            xorurl@,
            file_type@,
            file_size@,
            now@,
            match file_created {
                Some(c) => c@,
                None => now@,
            },
        ),
{
    let created = match file_created {
        Some(c) => c,
        None => now,
    };
    file_item(xorurl, file_type, file_size, now, created)
}

/// The extension of a local file, as the file system reports it.
pub enum FileExtension {
    /// The file name has no extension.
    Missing,
    /// The extension is not valid unicode.
    NotUnicode,
    Text(String),
}

/// What the file system reports of a local file.
pub struct LocalFileInfo {
    /// Size in bytes.
    pub size: u64,
    pub extension: FileExtension,
}

/// The type recorded for a file: its extension, or `unknown` when it has none; an
/// extension that is not unicode is refused with the message `unknown`.
pub open spec fn file_type_outcome(ext: FileExtension) -> Result<Seq<char>, Seq<char>> {
    match ext {
        FileExtension::Missing => Ok("unknown"@),
        FileExtension::NotUnicode => Err("unknown"@),
        FileExtension::Text(e) => Ok(e@),
    }
}

fn file_type_of(ext: &FileExtension) -> (res: Result<String, String>)
    ensures
        match file_type_outcome(*ext) {
            Ok(t) => res matches Ok(r) && r@ == t,
            Err(e) => res matches Err(r) && r@ == e,
        },
{
    match ext {
        FileExtension::Missing => Ok(owned("unknown")),
        FileExtension::NotUnicode => Err(owned("unknown")),
        FileExtension::Text(e) => Ok(e.clone()),
    }
}

/// The files map built from the first `n` processed files (those that are not
/// errors), with the facts reported for each, or the first error met.
pub open spec fn files_map_create_outcome(
    content: Seq<(String, (String, String))>,
    infos: Seq<Result<LocalFileInfo, String>>,
    base_path: Seq<char>,
    prefix: Seq<char>,
    now: Seq<char>,
    n: nat,
) -> Result<Map<Seq<char>, Map<Seq<char>, Seq<char>>>, Seq<char>>
    decreases n,
{
    if n == 0 {
        Ok(Map::empty())
    } else {
        match files_map_create_outcome(content, infos, base_path, prefix, now, (n - 1) as nat) {
            Err(e) => Err(e),
            Ok(m) => {
                let entry = content[n - 1];
                if entry.1.0@ == "E"@ {
                    Ok(m)
                } else {
                    match infos[n - 1] {
                        Err(e) => Err("Couldn't obtain metadata information for local file: "@ + e@),
                        Ok(info) => match file_type_outcome(info.extension) {
                            Err(e) => Err(e),
                            Ok(t) => Ok(
                                m.insert(
                                    file_name_v(entry.0@, prefix, base_path),
                                    file_item_v(entry.1.1@, t, decimal(info.size as nat), now, now),
                                ),
                            ),
                        },
                    }
                }
            },
        }
    }
}

/// Builds the files map of a new container from the processed local files, given
/// what the file system reported of each (in the same order) and the time of
/// creation: each file that is not an error is stored under its name (see
/// `file_name_v`) with its link, type, size and times.
pub fn files_map_create(
    content: &ProcessedFiles,
    root_path: String,
    infos: &Vec<Result<LocalFileInfo, String>>,
    now: &str,
) -> (res: Result<FilesMap, String>)
    requires
        infos@.len() == content@.len(),
    ensures
        match files_map_create_outcome(
            content@,
            infos@,
            base_path_v(root_path@),
            path_prefix_v(processed_paths(content@)),
            now@,
            content@.len(),
        ) {
            Ok(m) => res matches Ok(r) && files_map_view(r@) == m,
            Err(e) => res matches Err(r) && r@ == e,
        },
{
    let (base_path, normalised_prefix) = gen_normalised_paths(content, root_path);
    let ghost bp = base_path@;
    let ghost pf = normalised_prefix@;
    let mut files_map: FilesMap = Vec::new();
    let mut i: usize = 0;
    proof {
        assert(files_map_view(files_map@) =~= Map::empty());
    }
    while i < content.len()
        invariant
            i <= content@.len(),
            infos@.len() == content@.len(),
            bp == base_path@,
            pf == normalised_prefix@,
            bp == base_path_v(root_path@),
            pf == path_prefix_v(processed_paths(content@)),
            files_map_create_outcome(content@, infos@, bp, pf, now@, i as nat) == Ok::<
                Map<Seq<char>, Map<Seq<char>, Seq<char>>>,
                Seq<char>,
            >(files_map_view(files_map@)),
        decreases content@.len() - i,
    {
        let (file_name, (change, link)) = &content[i];
        if str_equals(change.as_str(), FILE_ERROR_SIGN) {
            i = i + 1;
            continue ;
        }
        let info = match &infos[i] {
            Err(e) => {
                let mut msg = owned("Couldn't obtain metadata information for local file: ");
                push_str(&mut msg, e.as_str());
                proof {
                    assert(files_map_create_outcome(content@, infos@, bp, pf, now@, (i + 1) as nat)
                        == Err::<Map<Seq<char>, Map<Seq<char>, Seq<char>>>, Seq<char>>(msg@));
                    lemma_create_outcome_err_sticks(content@, infos@, bp, pf, now@, (i + 1) as nat, content@.len());
                }
                return Err(msg);
            },
            Ok(info) => info,
        };
        let file_type = match file_type_of(&info.extension) {
            Err(e) => {
                proof {
                    lemma_create_outcome_err_sticks(content@, infos@, bp, pf, now@, (i + 1) as nat, content@.len());
                }
                return Err(e);
            },
            Ok(t) => t,
        };
        let mut size = String::new();
        push_decimal(&mut size, info.size);
        let item = file_item(link.as_str(), file_type.as_str(), size.as_str(), now, now);
        let name = gen_file_name(file_name.as_str(), normalised_prefix.as_str(), base_path.as_str());
        let ghost before = files_map@;
        let ghost item_v = pairs_view(item@);
        table_insert(&mut files_map, name, item);
        proof {
            assert(files_map_view(files_map@) =~= files_map_view(before).insert(
                file_name_v(file_name@, pf, bp),
                item_v,
            ));
        }
        i = i + 1;
    }
    Ok(files_map)
}

proof fn lemma_create_outcome_err_sticks(
    content: Seq<(String, (String, String))>,
    infos: Seq<Result<LocalFileInfo, String>>,
    base_path: Seq<char>,
    prefix: Seq<char>,
    now: Seq<char>,
    i: nat,
    n: nat,
)
    requires
        i <= n,
        files_map_create_outcome(content, infos, base_path, prefix, now, i) is Err,
    ensures
        files_map_create_outcome(content, infos, base_path, prefix, now, n) == files_map_create_outcome(
            content,
            infos,
            base_path,
            prefix,
            now,
            i,
        ),
    decreases n - i,
{
    if i < n {
        lemma_create_outcome_err_sticks(content, infos, base_path, prefix, now, i, (n - 1) as nat);
    }
}


/// Whether a file item has the fields that a synchronisation reads.
pub open spec fn item_complete(item: Map<Seq<char>, Seq<char>>) -> bool {
    &&& item.contains_key("link"@)
    &&& item.contains_key("type"@)
    &&& item.contains_key("size"@)
    &&& item.contains_key("created"@)
}

/// Whether every item of a files map has the fields that a synchronisation reads.
pub open spec fn files_complete(m: Map<Seq<char>, Map<Seq<char>, Seq<char>>>) -> bool {
    forall|k: Seq<char>| #[trigger] m.contains_key(k) ==> item_complete(m[k])
}

/// Whether every item of a files map has the fields that a synchronisation reads
/// (see `files_complete`).
pub fn files_map_complete(files_map: &FilesMap) -> (res: bool)
    ensures
        res == files_complete(files_map_view(files_map@)),
{
    let ghost m = files_map_view(files_map@);
    let mut i: usize = 0;
    while i < files_map.len()
        invariant
            i <= files_map@.len(),
            m == files_map_view(files_map@),
            forall|j: int| 0 <= j < i ==> #[trigger] item_complete(m[files_map@[j].0@]),
        decreases files_map@.len() - i,
    {
        let key = files_map[i].0.as_str();
        proof {
            crate::table::lemma_table_view_keys(files_map@, files_map@[i as int].0@);
        }
        let item = match table_get(files_map, key) {
            Some(it) => it,
            None => {
                return false;
            },
        };
        let complete = pairs_get(item, "link").is_some() && pairs_get(item, "type").is_some() && pairs_get(
            item,
            "size",
        ).is_some() && pairs_get(item, "created").is_some();
        if !complete {
            proof {
                assert(m.contains_key(key@));
                assert(!item_complete(m[key@]));
            }
            return false;
        }
        i = i + 1;
    }
    proof {
        assert forall|k: Seq<char>| #[trigger] m.contains_key(k) implies item_complete(m[k]) by {
            crate::table::lemma_table_view_keys(files_map@, k);
            let j = choose|j: int| 0 <= j < files_map@.len() && files_map@[j].0@ == k;
            assert(item_complete(m[files_map@[j].0@]));
        }
    }
    true
}

/// Whether a processed entry is left out of a synchronisation: one whose sign is
/// the error sign.
pub fn sync_skips(change: &str) -> (res: bool)
    ensures
        res == (change@ == FILE_ERROR_SIGN@),
{
    str_equals(change, FILE_ERROR_SIGN)
}

/// What becomes of a local file in a synchronisation.
pub enum SyncAction {
    /// The file is to be uploaded and stored under `name` with its type and size;
    /// an update of an existing item carries the item's creation time.
    Upload { name: String, file_type: String, file_size: String, created: Option<String> },
    /// The file is unchanged: its item is kept as it was.
    Keep,
}

/// A synchronisation of a files map with local files in progress: the items not
/// yet matched by a local file, the resulting map so far, the files processed so
/// far, the number of files uploaded, the base path and prefix of local paths,
/// and whether unmatched items are to be deleted.
pub struct FilesMapSync {
    pub current_files_map: FilesMap,
    pub updated_files_map: FilesMap,
    pub processed_files: ProcessedFiles,
    pub success_count: u64,
    pub base_path: String,
    pub normalised_prefix: String,
    pub delete: bool,
}

/// The message of a local file whose metadata could not be read.
pub open spec fn metadata_error_message(key: Seq<char>, err: Seq<char>) -> Seq<char> {
    "Couldn't obtain metadata information for local file ('"@ + key + "'): "@ + err
}

impl FilesMapSync {
    /// Starts synchronising `current_files_map` with the local files of `new_content`.
    pub fn start(
        current_files_map: FilesMap,
        new_content: &ProcessedFiles,
        root_path: String,
        delete: bool,
    ) -> (res: FilesMapSync)
        ensures
            res.current_files_map == current_files_map,
            res.updated_files_map@.len() == 0,
            res.processed_files@.len() == 0,
            res.success_count == 0,
            res.base_path@ == base_path_v(root_path@),
            res.normalised_prefix@ == path_prefix_v(processed_paths(new_content@)),
            res.delete == delete,
    {
        let (base_path, normalised_prefix) = gen_normalised_paths(new_content, root_path);
        FilesMapSync {
            current_files_map,
            updated_files_map: Vec::new(),
            processed_files: Vec::new(),
            success_count: 0,
            base_path,
            normalised_prefix,
            delete,
        }
    }

    /// Decides what becomes of the local file at `key`, given what the file system
    /// reported of it. A file whose name is not in the current map is to be
    /// uploaded; one whose item has another size or type is to be uploaded again
    /// (keeping its creation time); otherwise its item is kept. A matched item
    /// leaves the current map. A file whose metadata or type could not be read
    /// fails the synchronisation, which is left unchanged.
    pub fn step(&mut self, key: &str, info: Result<LocalFileInfo, String>) -> (res: Result<
        SyncAction,
        String,
    >)
        requires
            files_complete(files_map_view(old(self).current_files_map@)),
        ensures
            final(self).base_path == old(self).base_path,
            final(self).normalised_prefix == old(self).normalised_prefix,
            final(self).delete == old(self).delete,
            final(self).processed_files == old(self).processed_files,
            final(self).success_count == old(self).success_count,
            files_complete(files_map_view(final(self).current_files_map@)),
            ({
                let name = file_name_v(key@, old(self).normalised_prefix@, old(self).base_path@);
                let cur = files_map_view(old(self).current_files_map@);
                match info {
                    Err(e) => res matches Err(m) && m@ == metadata_error_message(key@, e@)
                        && final(self).current_files_map == old(self).current_files_map
                        && final(self).updated_files_map == old(self).updated_files_map,
                    Ok(i) => match file_type_outcome(i.extension) {
                        Err(e) => res matches Err(m) && m@ == e && final(self).current_files_map
                            == old(self).current_files_map && final(self).updated_files_map == old(self).updated_files_map,
                        Ok(t) => {
                            let size = decimal(i.size as nat);
                            if !cur.contains_key(name) {
                                &&& res matches Ok(SyncAction::Upload { name: n, file_type: ft, file_size: fs, created: None })
                                    && n@ == name && ft@ == t && fs@ == size
                                &&& final(self).current_files_map == old(self).current_files_map
                                &&& final(self).updated_files_map == old(self).updated_files_map
                            } else if cur[name]["size"@] != size || cur[name]["type"@] != t {
                                &&& res matches Ok(SyncAction::Upload { name: n, file_type: ft, file_size: fs, created: Some(c) })
                                    && n@ == name && ft@ == t && fs@ == size && c@ == cur[name]["created"@]
                                &&& files_map_view(final(self).current_files_map@) == cur.remove(name)
                                &&& final(self).updated_files_map == old(self).updated_files_map
                            } else {
                                &&& res matches Ok(SyncAction::Keep)
                                &&& files_map_view(final(self).current_files_map@) == cur.remove(name)
                                &&& files_map_view(final(self).updated_files_map@) == files_map_view(
                                    old(self).updated_files_map@,
                                ).insert(name, cur[name])
                            }
                        },
                    },
                }
            }),
    {
        let info = match info {
            Err(e) => {
                let mut msg = owned("Couldn't obtain metadata information for local file ('");
                push_str(&mut msg, key);
                push_str(&mut msg, "'): ");
                push_str(&mut msg, e.as_str());
                return Err(msg);
            },
            Ok(i) => i,
        };
        let file_type = match file_type_of(&info.extension) {
            Err(e) => {
                return Err(e);
            },
            Ok(t) => t,
        };
        let mut file_size = String::new();
        push_decimal(&mut file_size, info.size);
        let name = gen_file_name(key, self.normalised_prefix.as_str(), self.base_path.as_str());
        let ghost cur = files_map_view(self.current_files_map@);
        proof {
            reveal_strlit("size");
            reveal_strlit("type");
            reveal_strlit("created");
        }
        let found = table_get(&self.current_files_map, name.as_str());
        match found {
            None => {
                proof {
                    assert(!cur.contains_key(name@));
                }
                Ok(SyncAction::Upload { name, file_type, file_size, created: None })
            },
            Some(item) => {
                proof {
                    assert(cur.contains_key(name@));
                    assert(cur[name@] == pairs_view(item@));
                    assert(item_complete(cur[name@]));
                }
                let same_size = match pairs_get(item, FILES_MAP_PREDICATE_SIZE) {
                    Some(v) => str_equals(v.as_str(), file_size.as_str()),
                    None => false,
                };
                let same_type = match pairs_get(item, FILES_MAP_PREDICATE_TYPE) {
                    Some(v) => str_equals(v.as_str(), file_type.as_str()),
                    None => false,
                };
                if !same_size || !same_type {
                    let created = match pairs_get(item, FILES_MAP_PREDICATE_CREATED) {
                        Some(c) => c.clone(),
                        None => String::new(),
                    };
                    let ghost old_cur = self.current_files_map@;
                    table_remove(&mut self.current_files_map, name.as_str());
                    proof {
                        lemma_files_view_remove(old_cur, self.current_files_map@, name@);
                    }
                    Ok(SyncAction::Upload { name, file_type, file_size, created: Some(created) })
                } else {
                    let kept = clone_pairs(item);
                    let ghost kept_v = pairs_view(kept@);
                    let ghost old_cur = self.current_files_map@;
                    let ghost old_upd = self.updated_files_map@;
                    table_insert(&mut self.updated_files_map, name.clone(), kept);
                    table_remove(&mut self.current_files_map, name.as_str());
                    proof {
                        lemma_files_view_remove(old_cur, self.current_files_map@, name@);
                        assert(files_map_view(self.updated_files_map@) =~= files_map_view(old_upd).insert(
                            name@,
                            kept_v,
                        ));
                    }
                    Ok(SyncAction::Keep)
                }
            },
        }
    }

    /// Records the outcome of uploading the file at `key` that `step` decided to
    /// upload: the link it was uploaded to, or the error met. An uploaded file gets
    /// a new item, modified `now`, and is processed as added (or updated, when the
    /// action carried a creation time); a failed upload is processed as an error.
    pub fn record_upload(&mut self, key: &str, action: &SyncAction, uploaded: Result<String, String>, now: &str)
        requires
            action is Upload,
            uploaded is Ok ==> old(self).success_count < u64::MAX,
        ensures
            final(self).base_path == old(self).base_path,
            final(self).normalised_prefix == old(self).normalised_prefix,
            final(self).delete == old(self).delete,
            final(self).current_files_map == old(self).current_files_map,
            match (action, uploaded) {
                (SyncAction::Upload { name, file_type, file_size, created }, Ok(xorurl)) => {
                    &&& files_map_view(final(self).updated_files_map@) == files_map_view(
                        old(self).updated_files_map@,
                    ).insert(
                        name@,
                        file_item_v(
                            xorurl@,
                            file_type@,
                            file_size@,
                            now@,
                            match created {
                                Some(c) => c@,
                                None => now@,
                            },
                        ),
                    )
                    &&& processed_files_view(final(self).processed_files@) == processed_files_view(
                        old(self).processed_files@,
                    ).insert(
                        key@,
                        (
                            if created is Some {
                                "*"@
                            } else {
                                "+"@
                            },
                            xorurl@,
                        ),
                    )
                    &&& final(self).success_count == old(self).success_count + 1
                },
                (_, Err(e)) => {
                    &&& final(self).updated_files_map == old(self).updated_files_map
                    &&& processed_files_view(final(self).processed_files@) == processed_files_view(
                        old(self).processed_files@,
                    ).insert(key@, ("E"@, "<"@ + e@ + ">"@))
                    &&& final(self).success_count == old(self).success_count
                },
                _ => true,
            },
    {
        match (action, uploaded) {
            (SyncAction::Upload { name, file_type, file_size, created }, Ok(xorurl)) => {
                let created_ref: Option<&str> = match created {
                    Some(c) => Some(c.as_str()),
                    None => None,
                };
                let item = gen_new_file_item(
                    xorurl.as_str(),
                    file_type.as_str(),
                    file_size.as_str(),
                    now,
                    created_ref,
                );
                let ghost item_v = pairs_view(item@);
                let ghost old_upd = self.updated_files_map@;
                let ghost old_proc = self.processed_files@;
                table_insert(&mut self.updated_files_map, name.clone(), item);
                let sign = match created {
                    Some(_) => owned(FILE_UPDATED_SIGN),
                    None => owned(FILE_ADDED_SIGN),
                };
                let ghost sign_v = sign@;
                let ghost link_v = xorurl@;
                table_insert(&mut self.processed_files, owned(key), (sign, xorurl));
                self.success_count = self.success_count + 1;
                proof {
                    reveal_strlit("*");
                    reveal_strlit("+");
                    assert(files_map_view(self.updated_files_map@) =~= files_map_view(old_upd).insert(
                        name@,
                        item_v,
                    ));
                    assert(processed_files_view(self.processed_files@) =~= processed_files_view(
                        old_proc,
                    ).insert(key@, (sign_v, link_v)));
                }
            },
            (_, Err(e)) => {
                let mut msg = owned("<");
                push_str(&mut msg, e.as_str());
                push_str(&mut msg, ">");
                let ghost old_proc = self.processed_files@;
                let ghost msg_v = msg@;
                table_insert(&mut self.processed_files, owned(key), (owned(FILE_ERROR_SIGN), msg));
                proof {
                    reveal_strlit("E");
                    assert(processed_files_view(self.processed_files@) =~= processed_files_view(
                        old_proc,
                    ).insert(key@, ("E"@, msg_v)));
                }
            },
            _ => {},
        }
    }

    /// Ends the synchronisation: the items not matched by any local file are kept
    /// in the resulting map, or, when deleting, processed as deleted with their
    /// link. Returns the processed files, the resulting map and the number of files
    /// uploaded.
    pub fn finish(self) -> (res: (ProcessedFiles, FilesMap, u64))
        requires
            files_complete(files_map_view(self.current_files_map@)),
        ensures
            res.2 == self.success_count,
            !self.delete ==> processed_files_view(res.0@) == processed_files_view(self.processed_files@)
                && files_map_view(res.1@) == files_map_view(self.updated_files_map@).union_prefer_right(
                files_map_view(self.current_files_map@),
            ),
            self.delete ==> files_map_view(res.1@) == files_map_view(self.updated_files_map@)
                && processed_files_view(res.0@) == processed_files_view(
                self.processed_files@,
            ).union_prefer_right(deleted_view(files_map_view(self.current_files_map@))),
    {
        let FilesMapSync {
            current_files_map,
            mut updated_files_map,
            mut processed_files,
            success_count,
            base_path: _,
            normalised_prefix: _,
            delete,
        } = self;
        let ghost upd0 = files_map_view(updated_files_map@);
        let ghost proc0 = processed_files_view(processed_files@);
        let ghost cur = current_files_map@;
        let mut i: usize = 0;
        proof {
            assert(files_map_view(cur.take(0)) =~= Map::empty());
            assert(upd0.union_prefer_right(files_map_view(cur.take(0))) =~= upd0);
            assert(proc0.union_prefer_right(
                deleted_view(files_map_view(cur)).restrict(files_map_view(cur.take(0)).dom()),
            ) =~= proc0);
        }
        while i < current_files_map.len()
            invariant
                cur == current_files_map@,
                i <= cur.len(),
                files_complete(files_map_view(cur)),
                !delete ==> files_map_view(updated_files_map@) == upd0.union_prefer_right(
                    files_map_view(cur.take(i as int)),
                ) && processed_files_view(processed_files@) == proc0,
                delete ==> files_map_view(updated_files_map@) == upd0 && processed_files_view(
                    processed_files@,
                ) == proc0.union_prefer_right(
                    deleted_view(files_map_view(cur)).restrict(files_map_view(cur.take(i as int)).dom()),
                ),
            decreases cur.len() - i,
        {
            let (file_name, file_item) = &current_files_map[i];
            let ghost pre = cur.take(i as int);
            let ghost post = cur.take(i + 1);
            proof {
                assert(post.drop_last() =~= pre);
                assert(post.last() == cur[i as int]);
                assert(files_map_view(post) =~= files_map_view(pre).insert(file_name@, pairs_view(file_item@)));
            }
            if !delete {
                let kept = clone_pairs(file_item);
                let ghost kept_v = pairs_view(kept@);
                let ghost before = updated_files_map@;
                table_insert(&mut updated_files_map, file_name.clone(), kept);
                proof {
                    assert(files_map_view(updated_files_map@) =~= files_map_view(before).insert(
                        file_name@,
                        kept_v,
                    ));
                    assert(files_map_view(updated_files_map@) =~= upd0.union_prefer_right(
                        files_map_view(post),
                    ));
                }
            } else {
                let ghost full = files_map_view(cur);
                let link = match table_get(&current_files_map, file_name.as_str()) {
                    Some(item) => match pairs_get(item, FILES_MAP_PREDICATE_LINK) {
                        Some(l) => l.clone(),
                        None => String::new(),
                    },
                    None => String::new(),
                };
                proof {
                    reveal_strlit("-");
                    reveal_strlit("link");
                    crate::table::lemma_table_view_keys(cur, file_name@);
                    assert(cur[i as int].0@ == file_name@);
                    assert(full.contains_key(file_name@));
                    assert(item_complete(full[file_name@]));
                }
                let ghost link_v = link@;
                let ghost before = processed_files@;
                table_insert(&mut processed_files, file_name.clone(), (owned(FILE_DELETED_SIGN), link));
                proof {
                    assert(link_v == full[file_name@]["link"@]);
                    assert(processed_files_view(processed_files@) =~= processed_files_view(before).insert(
                        file_name@,
                        ("-"@, link_v),
                    ));
                    assert(processed_files_view(processed_files@) =~= proc0.union_prefer_right(
                        deleted_view(full).restrict(files_map_view(post).dom()),
                    ));
                }
            }
            i = i + 1;
        }
        proof {
            assert(cur.take(cur.len() as int) =~= cur);
            assert(deleted_view(files_map_view(cur)).restrict(files_map_view(cur).dom()) =~= deleted_view(
                files_map_view(cur),
            ));
        }
        (processed_files, updated_files_map, success_count)
    }
}

/// The deletions of the items of a files map: each name with the deleted sign and
/// its link.
pub open spec fn deleted_view(m: Map<Seq<char>, Map<Seq<char>, Seq<char>>>) -> Map<Seq<char>, (Seq<char>, Seq<char>)> {
    m.map_values(|item: Map<Seq<char>, Seq<char>>| ("-"@, item["link"@]))
}

proof fn lemma_files_view_remove(before: Seq<(String, FileItem)>, after: Seq<(String, FileItem)>, k: Seq<char>)
    requires
        table_view(after) == table_view(before).remove(k),
    ensures
        files_map_view(after) == files_map_view(before).remove(k),
        files_complete(files_map_view(before)) ==> files_complete(files_map_view(after)),
{
    assert(files_map_view(after) =~= files_map_view(before).remove(k));
}


/// The root of a container built from a local location: the root given, if any;
/// otherwise nothing for a location that ends with `/` or that is not a folder,
/// and the folder's own name (its last component) for a folder. Whether the
/// location is a folder is what the file system reported of it, or the error met
/// reading its metadata.
pub open spec fn root_path_outcome(location: Seq<char>, set_root: Option<Seq<char>>, is_dir: core::result::Result<
    bool,
    Seq<char>,
>) -> core::result::Result<Seq<char>, Seq<char>> {
    match set_root {
        Some(r) => Ok(r),
        None => {
            let normalised = normalised_v(location);
            if normalised.len() > 0 && normalised.last() == '/' {
                Ok(Seq::empty())
            } else {
                match is_dir {
                    Err(e) => Err("Couldn't read metadata from source path ('"@ + location + "'): "@ + e),
                    Ok(false) => Ok(Seq::empty()),
                    Ok(true) => Ok(split_on(normalised, '/').last()),
                }
            }
        },
    }
}

/// The root of a container built from a local location (see `root_path_outcome`).
pub fn get_root_path(location: &str, set_root: Option<String>, is_dir: Result<bool, String>) -> (res: Result<
    String,
    String,
>)
    ensures
        match root_path_outcome(
            location@,
            match set_root {
                Some(r) => Some(r@),
                None => None,
            },
            match is_dir {
                Ok(b) => Ok(b),
                Err(e) => Err(e@),
            },
        ) {
            Ok(r) => res matches Ok(s) && s@ == r,
            Err(e) => res matches Err(s) && s@ == e,
        },
{
    match set_root {
        Some(location) => Ok(location),
        None => {
            let normalised_location = normalise_path_separator(location);
            let chars = str_to_chars(normalised_location.as_str());
            let n = chars.len();
            if n > 0 && chars[n - 1] == '/' {
                return Ok(String::new());
            }
            match is_dir {
                Err(e) => {
                    let mut msg = owned("Couldn't read metadata from source path ('");
                    push_str(&mut msg, location);
                    push_str(&mut msg, "'): ");
                    push_str(&mut msg, e.as_str());
                    Err(msg)
                },
                Ok(false) => Ok(String::new()),
                Ok(true) => {
                    let parts = split_chars(normalised_location.as_str(), '/');
                    let last = parts.len() - 1;
                    Ok(parts[last].clone())
                },
            }
        },
    }
}

/// The root of a container built from a folder, with no root given and a
/// location that does not end with `/`, is the folder's own name: a non-empty
/// end of the normalised location that holds no `/`, the whole location or what
/// follows its last `/`.
pub proof fn lemma_folder_root_is_last_component(location: Seq<char>)
    requires
        normalised_v(location).len() > 0,
        normalised_v(location).last() != '/',
    ensures
        root_path_outcome(location, None, Ok(true)) matches Ok(r) && {
            let n = normalised_v(location);
            &&& r.len() > 0
            &&& !r.contains('/')
            &&& r == n.skip(n.len() - r.len())
            &&& (r.len() == n.len() || n[n.len() - r.len() - 1] == '/')
        },
{
    let n = normalised_v(location);
    crate::text::lemma_split_last_suffix(n, '/');
    let r = split_on(n, '/').last();
    if r.len() == 0 {
        assert(n[n.len() - 1] == '/');
    }
}


/// A root given is the root, whatever the location.
pub proof fn lemma_given_root(location: Seq<char>, root: Seq<char>, is_dir: core::result::Result<bool, Seq<char>>)
    ensures
        root_path_outcome(location, Some(root), is_dir) == Ok::<Seq<char>, Seq<char>>(root),
{
}

/// With no root given, a location that ends with `/`, or one that is not a
/// folder, gives no root; a location whose metadata cannot be read is refused,
/// naming the location and the reason.
pub proof fn lemma_no_root(location: Seq<char>, is_dir: core::result::Result<bool, Seq<char>>)
    ensures
        normalised_v(location).len() > 0 && normalised_v(location).last() == '/' ==> root_path_outcome(
            location,
            None,
            is_dir,
        ) == Ok::<Seq<char>, Seq<char>>(Seq::empty()),
        root_path_outcome(location, None, Ok(false)) == Ok::<Seq<char>, Seq<char>>(Seq::empty()),
        !(normalised_v(location).len() > 0 && normalised_v(location).last() == '/') ==> (is_dir matches Err(e)
            ==> root_path_outcome(location, None, is_dir) == Err::<Seq<char>, Seq<char>>(
            "Couldn't read metadata from source path ('"@ + location + "'): "@ + e,
        )),
{
}

} // verus!
