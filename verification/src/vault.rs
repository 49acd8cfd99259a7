//! The document store: path composition for entry files, identifier
//! lookup by frontmatter scan, fail-fast listing, and the vault
//! configuration pointer.
//!
//! Reading and writing the files themselves is the caller's job; the
//! functions here compute over paths and over the file texts handed in.

use vstd::prelude::*;
use crate::codec::fault_matches;
use crate::codec::field_value;
use crate::codec::find_line;
use crate::codec::DocFault;
use crate::codec::spec_front_id;
use crate::codec::spec_parse;
use crate::codec::parse_entry;
use crate::codec::frontmatter_id;
use crate::columns::strings_view;
use crate::domain::CoreError;
use crate::domain::CoreResult;
use crate::domain::DetectedChange;
use crate::domain::Entry;
use crate::domain::EntryType;
use crate::domain::EntryV;
use crate::ids::new_id;
use crate::text::chars_to_string;
use crate::text::has_prefix;
use crate::text::lines_of;
use crate::text::no_newline;
use crate::text::slug_of;
use crate::text::slug_chars;
use crate::text::str_to_chars;

verus! {

/// Default directory name for the vault.
pub const VAULT_DIR_NAME: &'static str = "setupvault";

/// Join two path pieces with a slash.
fn join_path(a: &str, b: &str) -> (r: String)
    ensures
        r@ == a@ + seq!['/'] + b@,
{
    let mut v = str_to_chars(a);
    v.push('/');
    let mut w = str_to_chars(b);
    v.append(&mut w);
    proof {
        assert(v@ =~= a@ + seq!['/'] + b@);
    }
    chars_to_string(&v)
}

/// Append one piece to a path buffer.
fn push_piece(v: &mut Vec<char>, piece: &str)
    ensures
        final(v)@ == old(v)@ + piece@,
{
    let mut w = str_to_chars(piece);
    v.append(&mut w);
}

/// The storage subdirectory of each entry category.
pub open spec fn type_dir(t: EntryType) -> Seq<char> {
    match t {
        EntryType::Package => "packages"@,
        EntryType::Config => "configs"@,
        EntryType::Application => "applications"@,
        EntryType::Script => "scripts"@,
        EntryType::Other => "other"@,
    }
}

/// The file name an entry is stored under:
/// `<source>-<slug(title)>-<id>.md`.
pub open spec fn spec_entry_file_name(e: EntryV) -> Seq<char> {
    e.source + seq!['-'] + slug_of(e.title) + seq!['-'] + e.id + ".md"@
}

/// The path of an entry's document below the vault root:
/// `entries/<type-dir>/<source>/<file name>`.
pub open spec fn spec_entry_rel_path(e: EntryV) -> Seq<char> {
    "entries"@ + seq!['/'] + type_dir(e.entry_type) + seq!['/'] + e.source + seq!['/']
        + spec_entry_file_name(e)
}

/// Turn a title into its file-name slug.
pub fn slugify(input: &str) -> (r: String)
    ensures
        r@ == slug_of(input@),
{
    let v = str_to_chars(input);
    let s = slug_chars(&v);
    chars_to_string(&s)
}

/// A vault rooted at a directory path.
#[derive(Debug)]
pub struct FsVault {
    root: String,
}

impl View for FsVault {
    type V = Seq<char>;

    closed spec fn view(&self) -> Seq<char> {
        self.root@
    }
}

impl Clone for FsVault {
    fn clone(&self) -> (r: Self)
        ensures
            r@ == self@,
    {
        FsVault { root: self.root.clone() }
    }
}

impl FsVault {
    /// Create a new vault rooted at the provided path.
    pub fn new(root: String) -> (r: Self)
        ensures
            r@ == root@,
    {
        FsVault { root }
    }

    /// The root path of the vault.
    pub fn path(&self) -> (r: &str)
        ensures
            r@ == self@,
    {
        self.root.as_str()
    }

    /// The entries tree below the root.
    pub fn entries_root(&self) -> (r: String)
        ensures
            r@ == self@ + seq!['/'] + "entries"@,
    {
        join_path(self.root.as_str(), "entries")
    }

    /// The state area below the root.
    pub fn state_root(&self) -> (r: String)
        ensures
            r@ == self@ + seq!['/'] + ".state"@,
    {
        join_path(self.root.as_str(), ".state")
    }

    /// The inbox queue's file.
    pub fn inbox_path(&self) -> (r: String)
        ensures
            r@ == self@ + seq!['/'] + ".state"@ + seq!['/'] + "inbox.yaml"@,
    {
        let s = self.state_root();
        join_path(s.as_str(), "inbox.yaml")
    }

    /// The snoozed queue's file.
    pub fn snoozed_path(&self) -> (r: String)
        ensures
            r@ == self@ + seq!['/'] + ".state"@ + seq!['/'] + "snoozed.yaml"@,
    {
        let s = self.state_root();
        join_path(s.as_str(), "snoozed.yaml")
    }

    /// The snapshot file of one detector source.
    pub fn detector_snapshot_path(&self, source: &str) -> (r: String)
        ensures
            r@ == self@ + seq!['/'] + ".state"@ + seq!['/'] + "detectors"@ + seq!['/'] + source@
                + ".yaml"@,
    {
        let s = self.state_root();
        let d = join_path(s.as_str(), "detectors");
        let mut v = str_to_chars(d.as_str());
        v.push('/');
        push_piece(&mut v, source);
        push_piece(&mut v, ".yaml");
        proof {
            assert(v@ =~= self@ + seq!['/'] + ".state"@ + seq!['/'] + "detectors"@ + seq!['/']
                + source@ + ".yaml"@);
        }
        chars_to_string(&v)
    }

    /// The directory an entry is filed under, relative to the entries
    /// tree.
    pub fn entry_dir(entry_type: EntryType, source: &str) -> (r: String)
        ensures
            r@ == type_dir(entry_type) + seq!['/'] + source@,
    {
        let d = match entry_type {
            EntryType::Package => "packages",
            EntryType::Config => "configs",
            EntryType::Application => "applications",
            EntryType::Script => "scripts",
            EntryType::Other => "other",
        };
        join_path(d, source)
    }

    /// The file name an entry is stored under.
    pub fn entry_file_name(entry: &Entry) -> (r: String)
        ensures
            r@ == spec_entry_file_name(entry@),
    {
        let mut v = str_to_chars(entry.source.as_str());
        v.push('-');
        let slug = slugify(entry.title.as_str());
        push_piece(&mut v, slug.as_str());
        v.push('-');
        push_piece(&mut v, entry.id.as_str());
        push_piece(&mut v, ".md");
        proof {
            assert(v@ =~= spec_entry_file_name(entry@));
        }
        chars_to_string(&v)
    }

    /// The full path an entry's document is written to.
    pub fn entry_path(&self, entry: &Entry) -> (r: String)
        ensures
            r@ == self@ + seq!['/'] + spec_entry_rel_path(entry@),
    {
        let mut v = str_to_chars(self.root.as_str());
        v.push('/');
        push_piece(&mut v, "entries");
        v.push('/');
        let d = Self::entry_dir(entry.entry_type, entry.source.as_str());
        push_piece(&mut v, d.as_str());
        v.push('/');
        let f = Self::entry_file_name(entry);
        push_piece(&mut v, f.as_str());
        proof {
            assert(v@ =~= self@ + seq!['/'] + spec_entry_rel_path(entry@));
        }
        chars_to_string(&v)
    }
}

/// Some file's frontmatter names the identifier.
pub open spec fn has_doc_id(files: Seq<Seq<char>>, id: Seq<char>) -> bool {
    exists|i: int| 0 <= i < files.len() && spec_front_id(#[trigger] files[i]) == Some(id)
}

/// The first index whose file's frontmatter names the identifier, or `-1`.
pub open spec fn spec_find_id_index(files: Seq<Seq<char>>, id: Seq<char>) -> int
    decreases files.len(),
{
    if files.len() == 0 {
        -1
    } else if spec_front_id(files[0]) == Some(id) {
        0
    } else {
        let r = spec_find_id_index(files.drop_first(), id);
        if r == -1 {
            -1
        } else {
            1 + r
        }
    }
}

/// `spec_find_id_index` names the first match, when there is one.
pub proof fn lemma_find_id_index(files: Seq<Seq<char>>, id: Seq<char>)
    ensures
        spec_find_id_index(files, id) >= -1,
        spec_find_id_index(files, id) == -1 ==> !has_doc_id(files, id),
        spec_find_id_index(files, id) >= 0 ==> spec_find_id_index(files, id) < files.len()
            && spec_front_id(files[spec_find_id_index(files, id)]) == Some(id),
        spec_find_id_index(files, id) >= 0 ==> forall|j: int|
            0 <= j < spec_find_id_index(files, id) ==> spec_front_id(#[trigger] files[j])
                != Some(id),
    decreases files.len(),
{
    if files.len() > 0 && spec_front_id(files[0]) != Some(id) {
        let rest = files.drop_first();
        lemma_find_id_index(rest, id);
        let g = spec_find_id_index(rest, id);
        if g == -1 {
            assert forall|j: int| 0 <= j < files.len() implies spec_front_id(#[trigger] files[j])
                != Some(id) by {
                if j > 0 {
                    assert(rest[j - 1] == files[j]);
                }
            }
        } else {
            assert(rest[g] == files[g + 1]);
            assert forall|j: int| 0 <= j < spec_find_id_index(files, id) implies spec_front_id(
                #[trigger] files[j],
            ) != Some(id) by {
                if j > 0 {
                    assert(rest[j - 1] == files[j]);
                }
            }
        }
    }
}

/// Find the first file whose frontmatter names the identifier, if any.
pub fn find_entry_index(files: &Vec<String>, id: &String) -> (r: Option<usize>)
    ensures
        ({
            let k = spec_find_id_index(strings_view(files@), id@);
            match r {
                Some(i) => k == i,
                None => k == -1,
            }
        }),
{
    let ghost fv = strings_view(files@);
    let mut i: usize = 0;
    while i < files.len()
        invariant
            0 <= i <= files@.len(),
            fv == strings_view(files@),
            forall|j: int| 0 <= j < i ==> spec_front_id(#[trigger] fv[j]) != Some(id@),
        decreases files@.len() - i,
    {
        proof {
            assert(fv[i as int] == files@[i as int]@);
        }
        let matched = match frontmatter_id(files[i].as_str()) {
            Some(fid) => fid == *id,
            None => false,
        };
        if matched {
            proof {
                lemma_find_id_index(fv, id@);
                let k = spec_find_id_index(fv, id@);
                assert(k == i as int) by {
                    if k == -1 {
                        assert(!has_doc_id(fv, id@));
                        assert(spec_front_id(fv[i as int]) == Some(id@));
                        assert(false);
                    } else if k < i as int {
                        assert(spec_front_id(fv[k]) != Some(id@));
                        assert(spec_front_id(fv[k]) == Some(id@));
                        assert(false);
                    } else if k > i as int {
                        assert(spec_front_id(fv[i as int]) != Some(id@));
                        assert(false);
                    }
                }
            }
            return Some(i);
        }
        i = i + 1;
    }
    proof {
        lemma_find_id_index(fv, id@);
        let k = spec_find_id_index(fv, id@);
        if k >= 0 {
            assert(spec_front_id(fv[k]) != Some(id@));
            assert(spec_front_id(fv[k]) == Some(id@));
        }
    }
    None
}

/// Fetch the entry whose frontmatter names the identifier: absent is not
/// an error, but a file that matches and fails to parse aborts the
/// lookup.
pub fn get_entry(files: &Vec<String>, id: &String) -> (r: CoreResult<Option<Entry>>)
    ensures
        ({
            let fv = strings_view(files@);
            let k = spec_find_id_index(fv, id@);
            if k == -1 {
                r matches Ok(o) && o is None
            } else {
                match spec_parse(fv[k]) {
                    Ok(v) => r matches Ok(o) && o matches Some(e) && e@ == v,
                    Err(f) => r matches Err(e) && fault_matches(e, f),
                }
            }
        }),
{
    let ghost fv = strings_view(files@);
    match find_entry_index(files, id) {
        None => Ok(None),
        Some(i) => {
            proof {
                lemma_find_id_index(fv, id@);
                assert(fv[i as int] == files@[i as int]@);
            }
            match parse_entry(files[i].as_str()) {
                Ok(e) => Ok(Some(e)),
                Err(e) => Err(e),
            }
        },
    }
}

/// The views of a list of entries.
pub open spec fn entries_view(s: Seq<Entry>) -> Seq<EntryV> {
    s.map_values(|e: Entry| e@)
}

/// What listing every file yields: every entry parsed, in order, or the
/// first file's fault — one corrupt file aborts the whole listing.
pub open spec fn spec_list(files: Seq<Seq<char>>) -> Result<Seq<EntryV>, DocFault>
    decreases files.len(),
{
    if files.len() == 0 {
        Ok(Seq::empty())
    } else {
        match spec_parse(files[0]) {
            Err(f) => Err(f),
            Ok(e) => match spec_list(files.drop_first()) {
                Ok(rest) => Ok(seq![e] + rest),
                Err(f) => Err(f),
            },
        }
    }
}

/// Parse every file into an entry; any file that fails aborts the whole
/// listing with that file's error.
pub fn list_entries(files: &Vec<String>) -> (r: CoreResult<Vec<Entry>>)
    ensures
        match r {
            Ok(es) => spec_list(strings_view(files@)) == Result::<Seq<EntryV>, DocFault>::Ok(
                entries_view(es@),
            ),
            Err(e) => spec_list(strings_view(files@)) matches Err(f) && fault_matches(e, f),
        },
{
    let ghost fv = strings_view(files@);
    let mut out: Vec<Entry> = Vec::new();
    let mut i: usize = 0;
    proof {
        assert(fv.subrange(0, fv.len() as int) =~= fv);
        assert(entries_view(out@) + Seq::<EntryV>::empty() =~= entries_view(out@));
    }
    while i < files.len()
        invariant
            0 <= i <= files@.len(),
            fv == strings_view(files@),
            fv.len() == files@.len(),
            match spec_list(fv.subrange(i as int, fv.len() as int)) {
                Ok(tail) => spec_list(fv) == Result::<Seq<EntryV>, DocFault>::Ok(
                    entries_view(out@) + tail,
                ),
                Err(f) => spec_list(fv) matches Err(f2) && f2 == f,
            },
        decreases files@.len() - i,
    {
        let ghost rest = fv.subrange(i as int, fv.len() as int);
        let ghost out0 = entries_view(out@);
        proof {
            assert(rest[0] == files@[i as int]@);
            assert(rest.drop_first() =~= fv.subrange(i + 1 as int, fv.len() as int));
        }
        match parse_entry(files[i].as_str()) {
            Ok(e) => {
                out.push(e);
                proof {
                    assert(entries_view(out@) =~= out0.push(spec_parse(rest[0])->Ok_0));
                    if spec_list(rest.drop_first()) is Ok {
                        assert(out0 + (seq![spec_parse(rest[0])->Ok_0] + spec_list(
                            rest.drop_first(),
                        )->Ok_0) =~= entries_view(out@) + spec_list(rest.drop_first())->Ok_0);
                    }
                }
            },
            Err(e) => {
                return Err(e);
            },
        }
        i = i + 1;
    }
    proof {
        assert(fv.subrange(fv.len() as int, fv.len() as int) =~= Seq::<Seq<char>>::empty());
        assert(entries_view(out@) + Seq::<EntryV>::empty() =~= entries_view(out@));
    }
    Ok(out)
}

/// A lookup returns a value only for an identifier that some file's
/// frontmatter names: without such a file, the index search finds
/// nothing.
pub proof fn lemma_get_none_without_id(files: Seq<Seq<char>>, id: Seq<char>)
    requires
        !has_doc_id(files, id),
    ensures
        spec_find_id_index(files, id) == -1,
{
    lemma_find_id_index(files, id);
    let k = spec_find_id_index(files, id);
    if k >= 0 {
        assert(spec_front_id(files[k]) == Some(id));
        assert(has_doc_id(files, id));
    }
}

/// After deleting the one file whose frontmatter names the identifier, no
/// lookup for that identifier returns a value.
pub proof fn lemma_deleted_id_not_found(files: Seq<Seq<char>>, i: int, id: Seq<char>)
    requires
        0 <= i < files.len(),
        forall|j: int|
            0 <= j < files.len() && j != i ==> spec_front_id(#[trigger] files[j]) != Some(id),
    ensures
        !has_doc_id(files.remove(i), id),
        spec_find_id_index(files.remove(i), id) == -1,
{
    let rem = files.remove(i);
    assert forall|j: int| 0 <= j < rem.len() implies spec_front_id(#[trigger] rem[j]) != Some(id)
    by {
        if j < i {
            assert(rem[j] == files[j]);
        } else {
            assert(rem[j] == files[j + 1]);
        }
    }
    lemma_get_none_without_id(rem, id);
}

/// Turn a removed entry back into a staged change: a fresh identifier, no
/// origin path, every other field carried over.
pub fn restore_change(entry: &Entry) -> (c: DetectedChange)
    ensures
        c@.path is None,
        c@.title == entry@.title,
        c@.entry_type == entry@.entry_type,
        c@.source == entry@.source,
        c@.cmd == entry@.cmd,
        c@.system == entry@.system,
        c@.detected_at == entry@.detected_at,
        c@.tags == entry@.tags,
{
    DetectedChange {
        id: new_id(),
        path: None,
        title: entry.title.clone(),
        entry_type: entry.entry_type,
        source: entry.source.clone(),
        cmd: entry.cmd.clone(),
        system: entry.system.clone(),
        detected_at: entry.detected_at.clone(),
        tags: crate::domain::clone_tags(&entry.tags),
    }
}

/// Append one staged change to a queue.
pub fn add_change(list: &mut Vec<DetectedChange>, item: DetectedChange)
    ensures
        final(list)@ == old(list)@.push(item),
{
    list.push(item);
}

/// The rendered configuration pointer: one `path:` line.
pub open spec fn spec_render_config(p: Option<Seq<char>>) -> Seq<char> {
    match p {
        Some(path) => "path: "@ + path + seq!['\n'],
        None => "path: null"@ + seq!['\n'],
    }
}

/// What parsing a configuration pointer yields: the recorded path, `None`
/// for a null pointer, or a fault.
pub open spec fn spec_parse_config(s: Seq<char>) -> Result<Option<Seq<char>>, ()> {
    let l = lines_of(s)[0];
    if l == "path: null"@ {
        Ok(None)
    } else if has_prefix(l, "path: "@) {
        Ok(Some(field_value(l, "path: "@)))
    } else {
        Err(())
    }
}

/// Render the configuration pointer file.
pub fn render_config(p: &Option<String>) -> (r: String)
    ensures
        r@ == spec_render_config(match p {
            Some(s) => Some(s@),
            None => None,
        }),
{
    match p {
        Some(path) => {
            let mut v = str_to_chars("path: ");
            push_piece(&mut v, path.as_str());
            v.push('\n');
            proof {
                assert(v@ =~= "path: "@ + path@ + seq!['\n']);
            }
            chars_to_string(&v)
        },
        None => {
            let mut v = str_to_chars("path: null");
            v.push('\n');
            proof {
                assert(v@ =~= "path: null"@ + seq!['\n']);
            }
            chars_to_string(&v)
        },
    }
}

/// Parse the configuration pointer file.
pub fn parse_config(s: &str) -> (r: CoreResult<Option<String>>)
    ensures
        match r {
            Ok(p) => spec_parse_config(s@) == Result::<Option<Seq<char>>, ()>::Ok(
                match p {
                    Some(path) => Some(path@),
                    None => None,
                },
            ),
            Err(e) => spec_parse_config(s@) is Err && e is Storage,
        },
{
    let v = str_to_chars(s);
    let lines = crate::text::split_lines(&v);
    let ghost ls = lines_of(s@);
    proof {
        assert(crate::text::line_views(lines@) == ls);
        assert(ls[0] == lines@[0]@);
    }
    let null_line = str_to_chars("path: null");
    if crate::text::chars_eq(&lines[0], &null_line) {
        return Ok(None);
    }
    let prefix = str_to_chars("path: ");
    if crate::text::starts_with_chars(&lines[0], &prefix) {
        let val = crate::text::chars_subrange(&lines[0], prefix.len(), lines[0].len());
        return Ok(Some(chars_to_string(&val)));
    }
    Err(CoreError::Storage(String::from_str("corrupt config file")))
}

/// Rendering the configuration pointer and parsing it back yields the
/// pointer, for a path without newlines that is not the word `null`.
pub proof fn lemma_config_round_trip(p: Option<Seq<char>>)
    requires
        match p {
            Some(path) => no_newline(path) && path != "null"@,
            None => true,
        },
    ensures
        spec_parse_config(spec_render_config(p)) == Result::<Option<Seq<char>>, ()>::Ok(p),
{
    reveal_strlit("path: ");
    reveal_strlit("path: null");
    reveal_strlit("null");
    let s = spec_render_config(p);
    match p {
        Some(path) => {
            let l0 = "path: "@ + path;
            assert(no_newline(l0)) by {
                assert forall|i: int| 0 <= i < l0.len() implies l0[i] != '\n' by {
                    if i >= "path: "@.len() {
                        assert(l0[i] == path[i - "path: "@.len()]);
                    }
                }
            }
            crate::text::lemma_lines_step(l0, Seq::<char>::empty());
            assert(s =~= l0 + seq!['\n'] + Seq::<char>::empty());
            assert(lines_of(s)[0] == l0);
            assert(l0 != "path: null"@) by {
                if l0 == "path: null"@ {
                    assert(path =~= "null"@) by {
                        assert(path.len() == 4);
                        assert forall|i: int| 0 <= i < 4 implies path[i] == "null"@[i] by {
                            assert(l0[i + 6] == path[i]);
                            assert("path: null"@[i + 6] == "null"@[i]);
                        }
                    }
                }
            }
            assert(has_prefix(l0, "path: "@)) by {
                assert(l0.subrange(0, "path: "@.len() as int) =~= "path: "@);
            }
            assert(field_value(l0, "path: "@) =~= path);
        },
        None => {
            let l0 = "path: null"@;
            assert(no_newline(l0));
            crate::text::lemma_lines_step(l0, Seq::<char>::empty());
            assert(s =~= l0 + seq!['\n'] + Seq::<char>::empty());
            assert(lines_of(s)[0] == l0);
        },
    }
}

} // verus!
