//! The container record: one row of runtime-reported container data.

use vstd::prelude::*;

verus! {

/// Mathematical view of a container record: each field as a sequence of
/// characters.
pub struct RecordView {
    pub id: Seq<char>,
    pub image: Seq<char>,
    pub command: Seq<char>,
    pub created_at: Seq<char>,
    pub status: Seq<char>,
    pub ports: Seq<char>,
    pub names: Seq<char>,
}

impl RecordView {
    /// A record that survives decoding always carries a non-empty
    /// identifier.
    pub open spec fn well_formed(self) -> bool {
        self.id.len() > 0
    }
}

/// One row of container metadata as reported by the external runtime tool.
/// All fields are plain text captured from the tool's output; no parsing
/// beyond string capture is done.
pub struct ContainerRecord {
    pub id: String,
    pub image: String,
    pub command: String,
    pub created_at: String,
    pub status: String,
    pub ports: String,
    pub names: String,
}

impl View for ContainerRecord {
    type V = RecordView;

    open spec fn view(&self) -> RecordView {
        RecordView {
            id: self.id@,
            image: self.image@,
            command: self.command@,
            created_at: self.created_at@,
            status: self.status@,
            ports: self.ports@,
            names: self.names@,
        }
    }
}

} // verus!
