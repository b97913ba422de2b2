use vstd::prelude::*;

verus! {

/// The name of the snapshot file below the data directory.
pub const STORE_FILE_NAME: &'static str = "flashmaster.json";

/// The name of the backups directory below the data directory.
pub const BACKUPS_DIR_NAME: &'static str = "backups";

/// The name of the database file below the data directory.
pub const DATABASE_FILE_NAME: &'static str = "flashmaster.sqlite3";

/// True for a text that names one file or directory: it is not empty, does
/// not begin with a dot and holds neither a slash nor a backslash nor a
/// colon.
pub open spec fn is_plain_name(name: Seq<char>) -> bool {
    &&& name.len() > 0
    &&& name[0] != '.'
    &&& forall|i: int|
        0 <= i < name.len() ==> #[trigger] name[i] != '/' && name[i] != '\\' && name[i] != ':'
}

/// True when `path` is `dir` with `leaf` below it: it begins with `dir`,
/// ends with `leaf`, and at most one separating character stands between
/// the two.
pub open spec fn lies_below(path: Seq<char>, dir: Seq<char>, leaf: Seq<char>) -> bool {
    &&& dir.len() + leaf.len() <= path.len() <= dir.len() + leaf.len() + 1
    &&& path.subrange(0, dir.len() as int) == dir
    &&& path.subrange(path.len() - leaf.len(), path.len() as int) == leaf
}

/// True when `path` ends with `leaf`.
pub open spec fn ends_with(path: Seq<char>, leaf: Seq<char>) -> bool {
    leaf.len() <= path.len() && path.subrange(path.len() - leaf.len(), path.len() as int) == leaf
}

/// True for a text without a backslash.
pub open spec fn has_no_backslash(text: Seq<char>) -> bool {
    forall|i: int| 0 <= i < text.len() ==> #[trigger] text[i] != '\\'
}

/// `std::path::Path::join` on the path that `dir` spells and a plain name,
/// handed back as text. Joining adjoins the name, so the result ends with
/// it. Where the directory holds no backslash, which leaves out the
/// verbatim paths that one platform rebuilds from their parts, the result is
/// the directory, a separator where one is needed, and the name.
#[verifier::external_body]
pub(crate) fn join(dir: &str, leaf: &str) -> (r: String)
    requires
        is_plain_name(leaf@),
    ensures
        ends_with(r@, leaf@),
        has_no_backslash(dir@) ==> lies_below(r@, dir@, leaf@),
{
    std::path::Path::new(dir).join(leaf).to_string_lossy().into_owned()
}

/// Where a store below the data directory `root` keeps its snapshot file
/// and its backups.
pub fn default_store_file(root: &str) -> (r: (String, String))
    ensures
        ends_with(r.0@, STORE_FILE_NAME@),
        ends_with(r.1@, BACKUPS_DIR_NAME@),
        has_no_backslash(root@) ==> lies_below(r.0@, root@, STORE_FILE_NAME@) && lies_below(
            r.1@,
            root@,
            BACKUPS_DIR_NAME@,
        ),
{
    proof {
        reveal_strlit("flashmaster.json");
        reveal_strlit("backups");
    }
    let file = join(root, STORE_FILE_NAME);
    let backups = join(root, BACKUPS_DIR_NAME);
    (file, backups)
}

/// Where the database of a store below the data directory `root` lies
/// when no other place is given.
pub fn default_database_file(root: &str) -> (r: String)
    ensures
        ends_with(r@, DATABASE_FILE_NAME@),
        has_no_backslash(root@) ==> lies_below(r@, root@, DATABASE_FILE_NAME@),
{
    proof {
        reveal_strlit("flashmaster.sqlite3");
    }
    join(root, DATABASE_FILE_NAME)
}

} // verus!
