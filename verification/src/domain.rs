//! Core domain entities and validation rules.

use vstd::prelude::*;
use crate::text::has_content;
use crate::text::has_visible_char;

verus! {

/// Errors returned by validation and storage rules.
#[derive(Debug, PartialEq, Eq)]
pub enum CoreError {
    /// A validation rule was violated.
    Validation(String),
    /// A repository or parsing operation failed.
    Storage(String),
}

impl CoreError {
    /// The descriptive message carried by the error.
    pub fn message(&self) -> (r: String)
        ensures
            r@ == self.text(),
    {
        match self {
            CoreError::Validation(m) => m.clone(),
            CoreError::Storage(m) => m.clone(),
        }
    }

    /// The message text, whichever variant carries it.
    pub open spec fn text(&self) -> Seq<char> {
        match self {
            CoreError::Validation(m) => m@,
            CoreError::Storage(m) => m@,
        }
    }
}

/// Result type for core operations.
pub type CoreResult<T> = Result<T, CoreError>;

/// Shared error variants for cross-cutting helpers.
#[derive(Debug, PartialEq, Eq)]
pub enum UtilsError {
    /// An input or output failure, described in text.
    Io(String),
    /// A serialization failure.
    Serialization(String),
    /// A parsing failure.
    Parse(String),
}

impl UtilsError {
    /// The descriptive message carried by the error.
    pub fn message(&self) -> (r: String)
        ensures
            match self {
                UtilsError::Io(m) => r@ == m@,
                UtilsError::Serialization(m) => r@ == m@,
                UtilsError::Parse(m) => r@ == m@,
            },
    {
        match self {
            UtilsError::Io(m) => m.clone(),
            UtilsError::Serialization(m) => m.clone(),
            UtilsError::Parse(m) => m.clone(),
        }
    }
}

impl Clone for CoreError {
    fn clone(&self) -> (r: Self)
        ensures
            r == *self,
    {
        match self {
            CoreError::Validation(m) => CoreError::Validation(m.clone()),
            CoreError::Storage(m) => CoreError::Storage(m.clone()),
        }
    }
}

/// A user-provided explanation for why a change exists.
#[derive(Debug, PartialEq, Eq)]
pub struct Rationale {
    text: String,
}

impl Clone for Rationale {
    fn clone(&self) -> (r: Self)
        ensures
            r == *self,
    {
        Rationale { text: self.text.clone() }
    }
}

impl View for Rationale {
    type V = Seq<char>;

    closed spec fn view(&self) -> Seq<char> {
        self.text@
    }
}

impl Rationale {
    /// The stored text has at least one non-whitespace character.
    pub open spec fn wf(&self) -> bool {
        has_content(self@)
    }

    /// Create a new rationale, rejecting empty or whitespace-only values.
    /// The stored text is the input unchanged.
    pub fn new(text: String) -> (r: CoreResult<Self>)
        ensures
            has_content(text@) ==> (r matches Ok(v) && v@ == text@ && v.wf()),
            !has_content(text@) ==> (r matches Err(e) && e is Validation && e.text()
                == "rationale cannot be empty"@),
    {
        if !has_visible_char(text.as_str()) {
            return Err(CoreError::Validation(String::from_str("rationale cannot be empty")));
        }
        Ok(Rationale { text })
    }

    /// Access the rationale text.
    pub fn as_str(&self) -> (r: &str)
        ensures
            r@ == self@,
    {
        self.text.as_str()
    }
}

/// A label used to group or filter entries.
#[derive(Debug, PartialEq, Eq)]
pub struct Tag {
    value: String,
}

impl Clone for Tag {
    fn clone(&self) -> (r: Self)
        ensures
            r == *self,
    {
        Tag { value: self.value.clone() }
    }
}

impl View for Tag {
    type V = Seq<char>;

    closed spec fn view(&self) -> Seq<char> {
        self.value@
    }
}

impl Tag {
    /// The stored label has at least one non-whitespace character.
    pub open spec fn wf(&self) -> bool {
        has_content(self@)
    }

    /// Create a new tag, rejecting empty or whitespace-only values.
    /// The stored label is the input unchanged.
    pub fn new(value: String) -> (r: CoreResult<Self>)
        ensures
            has_content(value@) ==> (r matches Ok(v) && v@ == value@ && v.wf()),
            !has_content(value@) ==> (r matches Err(e) && e is Validation && e.text()
                == "tag cannot be empty"@),
    {
        if !has_visible_char(value.as_str()) {
            return Err(CoreError::Validation(String::from_str("tag cannot be empty")));
        }
        Ok(Tag { value })
    }

    /// Access the tag value.
    pub fn as_str(&self) -> (r: &str)
        ensures
            r@ == self@,
    {
        self.value.as_str()
    }
}

/// The views of a sequence of tags.
pub open spec fn tags_view(tags: Seq<Tag>) -> Seq<Seq<char>> {
    tags.map_values(|t: Tag| t@)
}

/// Every tag in the sequence is well formed.
pub open spec fn tags_wf(tags: Seq<Tag>) -> bool {
    forall|i: int| 0 <= i < tags.len() ==> (#[trigger] tags[i]).wf()
}

/// Supported entry categories.
#[derive(Clone, Copy, Debug, PartialEq, Eq, Structural)]
pub enum EntryType {
    /// Package manager installs.
    Package,
    /// Configuration file changes.
    Config,
    /// Installed software applications.
    Application,
    /// Script or automation entries.
    Script,
    /// Catch-all for other changes.
    Other,
}

/// The current lifecycle status of an entry.
#[derive(Clone, Copy, Debug, PartialEq, Eq, Structural)]
pub enum EntryStatus {
    /// Actively tracked entry.
    Active,
    /// Deferred for later review.
    Snoozed,
    /// Explicitly ignored or discarded.
    Ignored,
}

/// System metadata to help reproduce environments.
#[derive(Debug, PartialEq, Eq)]
pub struct SystemInfo {
    /// Operating system identifier.
    pub os: String,
    /// Architecture identifier.
    pub arch: String,
}

impl Clone for SystemInfo {
    fn clone(&self) -> (r: Self)
        ensures
            r == *self,
    {
        SystemInfo { os: self.os.clone(), arch: self.arch.clone() }
    }
}

/// Mathematical view of `SystemInfo`.
pub ghost struct SystemInfoV {
    pub os: Seq<char>,
    pub arch: Seq<char>,
}

impl View for SystemInfo {
    type V = SystemInfoV;

    open spec fn view(&self) -> SystemInfoV {
        SystemInfoV { os: self.os@, arch: self.arch@ }
    }
}

/// Clone a tag list; the result holds the same tags in the same order.
pub fn clone_tags(tags: &Vec<Tag>) -> (r: Vec<Tag>)
    ensures
        r@ == tags@,
{
    let r = tags.clone();
    proof {
        assert forall|i: int| 0 <= i < tags@.len() implies r@[i] == tags@[i] by {
            assert(cloned::<Tag>(tags[i], r[i]));
        }
        assert(r@ =~= tags@);
    }
    r
}

/// A persisted record in the vault.
#[derive(Debug, PartialEq, Eq)]
pub struct Entry {
    /// Unique identifier for the entry.
    pub id: String,
    /// Human-readable title.
    pub title: String,
    /// Entry category.
    pub entry_type: EntryType,
    /// Detector source, such as homebrew or npm.
    pub source: String,
    /// Exact command to reproduce the change.
    pub cmd: String,
    /// System metadata for reproducibility.
    pub system: SystemInfo,
    /// Timestamp text recorded when the change was detected.
    pub detected_at: String,
    /// Current lifecycle status.
    pub status: EntryStatus,
    /// Optional tags for grouping and search.
    pub tags: Vec<Tag>,
    /// Required user rationale.
    pub rationale: Rationale,
    /// Optional verification guidance.
    pub verification: Option<String>,
}

impl Clone for Entry {
    fn clone(&self) -> (r: Self)
        ensures
            r@ == self@,
    {
        Entry {
            id: self.id.clone(),
            title: self.title.clone(),
            entry_type: self.entry_type,
            source: self.source.clone(),
            cmd: self.cmd.clone(),
            system: self.system.clone(),
            detected_at: self.detected_at.clone(),
            status: self.status,
            tags: clone_tags(&self.tags),
            rationale: self.rationale.clone(),
            verification: match &self.verification {
                Some(v) => Some(v.clone()),
                None => None,
            },
        }
    }
}

/// Mathematical view of `Entry`.
pub ghost struct EntryV {
    pub id: Seq<char>,
    pub title: Seq<char>,
    pub entry_type: EntryType,
    pub source: Seq<char>,
    pub cmd: Seq<char>,
    pub system: SystemInfoV,
    pub detected_at: Seq<char>,
    pub status: EntryStatus,
    pub tags: Seq<Seq<char>>,
    pub rationale: Seq<char>,
    pub verification: Option<Seq<char>>,
}

impl View for Entry {
    type V = EntryV;

    open spec fn view(&self) -> EntryV {
        EntryV {
            id: self.id@,
            title: self.title@,
            entry_type: self.entry_type,
            source: self.source@,
            cmd: self.cmd@,
            system: self.system@,
            detected_at: self.detected_at@,
            status: self.status,
            tags: tags_view(self.tags@),
            rationale: self.rationale@,
            verification: match self.verification {
                Some(ref v) => Some(v@),
                None => None,
            },
        }
    }
}

impl Entry {
    /// Title, source and reproduction command are non-empty after trimming,
    /// and the rationale and every tag carry visible text.
    pub open spec fn wf(&self) -> bool {
        &&& has_content(self.title@)
        &&& has_content(self.source@)
        &&& has_content(self.cmd@)
        &&& self.rationale.wf()
        &&& tags_wf(self.tags@)
    }

    /// Create a new entry, validating the required text fields.
    /// Succeeds exactly when title, source and command each have a
    /// non-whitespace character; the stored fields are the inputs unchanged.
    pub fn new(
        id: String,
        title: String,
        entry_type: EntryType,
        source: String,
        cmd: String,
        system: SystemInfo,
        detected_at: String,
        status: EntryStatus,
        tags: Vec<Tag>,
        rationale: Rationale,
        verification: Option<String>,
    ) -> (r: CoreResult<Self>)
        ensures
            (has_content(title@) && has_content(source@) && has_content(cmd@)) <==> r is Ok,
            r matches Ok(e) ==> {
                &&& e.id@ == id@
                &&& e.title@ == title@
                &&& e.entry_type == entry_type
                &&& e.source@ == source@
                &&& e.cmd@ == cmd@
                &&& e.system@ == system@
                &&& e.detected_at@ == detected_at@
                &&& e.status == status
                &&& e.tags@ == tags@
                &&& e.rationale == rationale
                &&& e.verification == verification
            },
            r matches Err(e) ==> e is Validation,
            !has_content(title@) ==> (r matches Err(e) && e.text() == "title cannot be empty"@),
            (has_content(title@) && !has_content(source@)) ==> (r matches Err(e) && e.text()
                == "source cannot be empty"@),
            (has_content(title@) && has_content(source@) && !has_content(cmd@)) ==> (r matches
            Err(e) && e.text() == "cmd cannot be empty"@),
    {
        if !has_visible_char(title.as_str()) {
            return Err(CoreError::Validation(String::from_str("title cannot be empty")));
        }
        if !has_visible_char(source.as_str()) {
            return Err(CoreError::Validation(String::from_str("source cannot be empty")));
        }
        if !has_visible_char(cmd.as_str()) {
            return Err(CoreError::Validation(String::from_str("cmd cannot be empty")));
        }
        Ok(Entry {
            id,
            title,
            entry_type,
            source,
            cmd,
            system,
            detected_at,
            status,
            tags,
            rationale,
            verification,
        })
    }
}

/// A change detected by a detector before user approval.
#[derive(Debug, PartialEq, Eq)]
pub struct DetectedChange {
    /// Unique identifier for the detected change.
    pub id: String,
    /// Optional path associated with the change (e.g., a dotfile).
    pub path: Option<String>,
    /// Human-readable title.
    pub title: String,
    /// Entry category.
    pub entry_type: EntryType,
    /// Detector source.
    pub source: String,
    /// Exact command to reproduce the change.
    pub cmd: String,
    /// System metadata.
    pub system: SystemInfo,
    /// Timestamp text recorded when the change was detected.
    pub detected_at: String,
    /// Suggested tags.
    pub tags: Vec<Tag>,
}

impl Clone for DetectedChange {
    fn clone(&self) -> (r: Self)
        ensures
            r@ == self@,
    {
        DetectedChange {
            id: self.id.clone(),
            path: match &self.path {
                Some(p) => Some(p.clone()),
                None => None,
            },
            title: self.title.clone(),
            entry_type: self.entry_type,
            source: self.source.clone(),
            cmd: self.cmd.clone(),
            system: self.system.clone(),
            detected_at: self.detected_at.clone(),
            tags: clone_tags(&self.tags),
        }
    }
}

/// Mathematical view of `DetectedChange`.
pub ghost struct DetectedChangeV {
    pub id: Seq<char>,
    pub path: Option<Seq<char>>,
    pub title: Seq<char>,
    pub entry_type: EntryType,
    pub source: Seq<char>,
    pub cmd: Seq<char>,
    pub system: SystemInfoV,
    pub detected_at: Seq<char>,
    pub tags: Seq<Seq<char>>,
}

impl View for DetectedChange {
    type V = DetectedChangeV;

    open spec fn view(&self) -> DetectedChangeV {
        DetectedChangeV {
            id: self.id@,
            path: match self.path {
                Some(ref p) => Some(p@),
                None => None,
            },
            title: self.title@,
            entry_type: self.entry_type,
            source: self.source@,
            cmd: self.cmd@,
            system: self.system@,
            detected_at: self.detected_at@,
            tags: tags_view(self.tags@),
        }
    }
}

} // verus!
