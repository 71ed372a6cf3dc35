use vstd::prelude::*;

verus! {

/// One artifact version still awaiting its descriptor document.
pub struct WorkItem {
    pub version_id: i32,
    pub group_id: String,
    pub artifact_id: String,
    pub version: String,
}

/// The mathematical value of a `WorkItem`.
pub struct WorkItemView {
    pub version_id: int,
    pub group_id: Seq<char>,
    pub artifact_id: Seq<char>,
    pub version: Seq<char>,
}

impl View for WorkItem {
    type V = WorkItemView;

    open spec fn view(&self) -> WorkItemView {
        WorkItemView {
            version_id: self.version_id as int,
            group_id: self.group_id@,
            artifact_id: self.artifact_id@,
            version: self.version@,
        }
    }
}

impl WorkItem {
    /// A copy with the same mathematical value.
    pub fn duplicate(&self) -> (r: WorkItem)
        ensures
            r@ == self@,
    {
        WorkItem {
            version_id: self.version_id,
            group_id: self.group_id.clone(),
            artifact_id: self.artifact_id.clone(),
            version: self.version.clone(),
        }
    }
}

/// A successfully fetched descriptor document, held until its batch is flushed.
pub struct FetchedDocument {
    pub version_id: i32,
    pub content: Vec<u8>,
}

/// The mathematical value of a `FetchedDocument`.
pub struct DocumentView {
    pub version_id: int,
    pub content: Seq<u8>,
}

impl View for FetchedDocument {
    type V = DocumentView;

    open spec fn view(&self) -> DocumentView {
        DocumentView { version_id: self.version_id as int, content: self.content@ }
    }
}

/// The mathematical values of a sequence of work items.
pub open spec fn item_views(s: Seq<WorkItem>) -> Seq<WorkItemView> {
    s.map_values(|w: WorkItem| w@)
}

} // verus!
