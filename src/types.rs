use vstd::prelude::*;

verus! {

/// One keyframe: from timeline position `frame` on, drawing `cell` is shown (0 is blank).
#[derive(Debug, Clone, Copy, PartialEq, Eq, Structural)]
pub struct Frame {
    pub frame: u32,
    pub cell: u16,
}

/// One animation channel: its display name and its compacted keyframes.
#[derive(Debug, Clone)]
pub struct Layer {
    pub name: String,
    pub frames: Vec<Frame>,
}

/// A normalized timesheet: an identifying name, its length in frames and its layers.
#[derive(Debug, Clone)]
pub struct Timesheet {
    pub name: String,
    pub frame_count: u32,
    pub layers: Vec<Layer>,
}

/// Root of a document in the XDTS dialect.
#[derive(Debug)]
pub struct XDTSRoot {
    pub time_tables: Vec<TimeTable>,
}

/// Root of a document in the TDTS dialect.
#[derive(Debug)]
pub struct TDTSRoot {
    pub time_sheets: Vec<TimeSheet>,
}

/// One sheet of a TDTS document: its cut label and its time tables.
#[derive(Debug)]
pub struct TimeSheet {
    pub header: Header,
    pub time_tables: Vec<TimeTable>,
}

/// The header of a TDTS sheet.
#[derive(Debug)]
pub struct Header {
    pub cut: String,
}

/// A named time table: its duration in frames, its fields and the track names per field.
#[derive(Debug)]
pub struct TimeTable {
    pub name: String,
    pub duration: u32,
    pub fields: Vec<Field>,
    pub time_table_headers: Vec<TimeTableHeader>,
}

/// A field of a time table, holding tracks.
#[derive(Debug)]
pub struct Field {
    pub field_id: u32,
    pub tracks: Vec<Track>,
}

/// The track names of the field with the same id.
#[derive(Debug)]
pub struct TimeTableHeader {
    pub field_id: u32,
    pub names: Vec<String>,
}

/// One track: its index into the header's names and its raw frame entries.
#[derive(Debug)]
pub struct Track {
    pub track_no: usize,
    pub frames: Vec<FrameData>,
}

/// A raw frame entry: a timeline position and the data recorded there.
#[derive(Debug)]
pub struct FrameData {
    pub frame: u32,
    pub data: Vec<DataItem>,
}

/// A data item of a frame entry; its first value is the cell token.
#[derive(Debug)]
pub struct DataItem {
    pub values: Vec<String>,
}

} // verus!
