//! Filesystem layout under the application data directory:
//!
//! ```text
//! <app_data_dir>/
//!   navis.db          # SQLite metadata
//!   vault.bin         # encrypted vault blob
//!   keys/             # known_hosts, RDP cert pins
//!     known_hosts
//!     rdp_pins.json
//!   logs/             # rotating logs
//! ```
//!
//! Paths are handled as text; the platform's separator is read once from
//! the standard library when the layout is created.

use vstd::prelude::*;

verus! {

/// The platform's main path separator. Reads `std::path::MAIN_SEPARATOR`,
/// which is documented as `/` on Unix and `\` on Windows.
#[verifier::external_body]
pub fn main_separator() -> (c: char)
    ensures
        c == '/' || c == '\\',
{
    std::path::MAIN_SEPARATOR
}

/// Whether `base` is a bare Windows drive, such as `C:`.
pub open spec fn bare_drive(base: Seq<char>) -> bool {
    &&& base.len() == 2
    &&& base[1] == ':'
    &&& (('A' <= base[0] && base[0] <= 'Z') || ('a' <= base[0] && base[0] <= 'z'))
}

/// `base` followed by the relative segment `seg`, with a separator between
/// them unless `base` is empty, already ends with one, or (on Windows, where
/// the separator is `\`) is a bare drive such as `C:` (`PathBuf::push` for
/// a relative segment).
pub open spec fn join_path(base: Seq<char>, seg: Seq<char>, sep: char) -> Seq<char> {
    if base.len() == 0 {
        seg
    } else if base.last() == sep || base.last() == '/' || (sep == '\\' && bare_drive(base)) {
        base + seg
    } else {
        base.push(sep) + seg
    }
}

/// The data-directory layout of the application.
pub struct AppPaths {
    root: String,
    sep: char,
}

impl AppPaths {
    /// The data directory.
    pub closed spec fn root_view(&self) -> Seq<char> {
        self.root@
    }

    /// The separator used when joining segments.
    pub closed spec fn sep_view(&self) -> char {
        self.sep
    }

    /// The layout rooted at `root`.
    pub fn from_root(root: String) -> (res: Self)
        ensures
            res.root_view() == root@,
            res.sep_view() == '/' || res.sep_view() == '\\',
    {
        AppPaths { root, sep: main_separator() }
    }

    /// The data directory.
    pub fn root(&self) -> (res: &String)
        ensures
            res@ == self.root_view(),
    {
        &self.root
    }

    fn join(&self, base: &String, seg: &str) -> (res: String)
        ensures
            res@ == join_path(base@, seg@, self.sep),
    {
        let b = crate::text::chars_of(base.as_str());
        if b.len() == 0 {
            return String::from_str(seg);
        }
        let last = b[b.len() - 1];
        let drive = b.len() == 2 && b[1] == ':' && (('A' <= b[0] && b[0] <= 'Z') || ('a' <= b[0] && b[0] <= 'z'));
        let mut res = base.clone();
        if !(last == self.sep || last == '/' || (self.sep == '\\' && drive)) {
            crate::text::push_char(&mut res, self.sep);
        }
        res.append(seg);
        res
    }

    /// The SQLite metadata file.
    pub fn database_path(&self) -> (res: String)
        ensures
            res@ == join_path(self.root_view(), "navis.db"@, self.sep_view()),
    {
        self.join(&self.root, "navis.db")
    }

    /// The encrypted vault file.
    pub fn vault_path(&self) -> (res: String)
        ensures
            res@ == join_path(self.root_view(), "vault.bin"@, self.sep_view()),
    {
        self.join(&self.root, "vault.bin")
    }

    /// The directory of the trust stores.
    pub fn keys_dir(&self) -> (res: String)
        ensures
            res@ == join_path(self.root_view(), "keys"@, self.sep_view()),
    {
        self.join(&self.root, "keys")
    }

    /// The SSH host-key store.
    pub fn known_hosts_path(&self) -> (res: String)
        ensures
            res@ == join_path(
                join_path(self.root_view(), "keys"@, self.sep_view()),
                "known_hosts"@,
                self.sep_view(),
            ),
    {
        let keys = self.keys_dir();
        self.join(&keys, "known_hosts")
    }

    /// The RDP certificate pin store.
    pub fn rdp_pins_path(&self) -> (res: String)
        ensures
            res@ == join_path(
                join_path(self.root_view(), "keys"@, self.sep_view()),
                "rdp_pins.json"@,
                self.sep_view(),
            ),
    {
        let keys = self.keys_dir();
        self.join(&keys, "rdp_pins.json")
    }

    /// The log directory.
    pub fn logs_dir(&self) -> (res: String)
        ensures
            res@ == join_path(self.root_view(), "logs"@, self.sep_view()),
    {
        self.join(&self.root, "logs")
    }
}


/// The layout never puts two of its entries at the same path: the
/// database, the vault, the key directory, the two trust stores and the
/// log directory are pairwise distinct, whatever the data directory.
pub proof fn law_layout_paths_distinct(root: Seq<char>, sep: char)
    requires
        sep == '/' || sep == '\\',
    ensures
        ({
            let db = join_path(root, "navis.db"@, sep);
            let vault = join_path(root, "vault.bin"@, sep);
            let keys = join_path(root, "keys"@, sep);
            let logs = join_path(root, "logs"@, sep);
            let kh = join_path(keys, "known_hosts"@, sep);
            let pins = join_path(keys, "rdp_pins.json"@, sep);
            &&& db != vault && db != keys && db != logs && db != kh && db != pins
            &&& vault != keys && vault != logs && vault != kh && vault != pins
            &&& keys != logs && keys != kh && keys != pins
            &&& logs != kh && logs != pins
            &&& kh != pins
        }),
{
    reveal_strlit("navis.db");
    reveal_strlit("vault.bin");
    reveal_strlit("keys");
    reveal_strlit("logs");
    reveal_strlit("known_hosts");
    reveal_strlit("rdp_pins.json");
    let p: Seq<char> = if root.len() == 0 {
        root
    } else if root.last() == sep || root.last() == '/' || (sep == '\\' && bare_drive(root)) {
        root
    } else {
        root.push(sep)
    };
    assert(join_path(root, "keys"@, sep) == p + "keys"@);
    assert(join_path(root, "logs"@, sep) == p + "logs"@);
    let keys = p + "keys"@;
    assert(keys.last() == 's');
    assert(join_path(keys, "known_hosts"@, sep) == keys.push(sep) + "known_hosts"@);
    assert(join_path(keys, "rdp_pins.json"@, sep) == keys.push(sep) + "rdp_pins.json"@);
    assert((p + "keys"@)[p.len() as int] == 'k');
    assert((p + "logs"@)[p.len() as int] == 'l');
    let db = p + "navis.db"@;
    let vault = p + "vault.bin"@;
    let logs = p + "logs"@;
    let kh = keys.push(sep) + "known_hosts"@;
    let pins = keys.push(sep) + "rdp_pins.json"@;
    assert(join_path(root, "navis.db"@, sep) == db);
    assert(join_path(root, "vault.bin"@, sep) == vault);
    assert(db.len() == p.len() + 8 && vault.len() == p.len() + 9 && keys.len() == p.len() + 4);
    assert(logs.len() == p.len() + 4 && kh.len() == p.len() + 16 && pins.len() == p.len() + 18);
    assert(keys != logs);
}

} // verus!
