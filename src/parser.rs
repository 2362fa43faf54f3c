use vstd::prelude::*;

use crate::cells::{parse_tdts_cell_value, parse_xdts_cell_value, tdts_cell, xdts_cell};
use crate::keyframes::{compact, is_compacted, lemma_compact_shape, optimize_frames};
use crate::numtext::{decimal, push_decimal};
use crate::types::{
    DataItem, Field, Frame, FrameData, Layer, TDTSRoot, TimeTable, TimeTableHeader, Timesheet,
    Track, XDTSRoot,
};

verus! {

/// The field id that TDTS documents keep their cell tracks under.
pub const TDTS_FIELD_ID: u32 = 4;

/// The cell token of a raw frame entry: the first value of its first data item.
pub open spec fn first_value(fd: FrameData) -> Option<Seq<char>> {
    if fd.data@.len() > 0 && fd.data@[0].values@.len() > 0 {
        Some(fd.data@[0].values@[0]@)
    } else {
        None
    }
}

/// The candidate keyframes of an XDTS track: one per entry whose token gives a cell.
pub open spec fn xdts_raw(fds: Seq<FrameData>) -> Seq<Frame>
    decreases fds.len(),
{
    if fds.len() == 0 {
        Seq::empty()
    } else {
        let p = xdts_raw(fds.drop_last());
        match first_value(fds.last()) {
            Some(v) => match xdts_cell(v) {
                Some(c) => p.push(Frame { frame: fds.last().frame, cell: c }),
                None => p,
            },
            None => p,
        }
    }
}

/// The candidate keyframes of a TDTS track: one per entry that holds a token.
pub open spec fn tdts_raw(fds: Seq<FrameData>) -> Seq<Frame>
    decreases fds.len(),
{
    if fds.len() == 0 {
        Seq::empty()
    } else {
        let p = tdts_raw(fds.drop_last());
        match first_value(fds.last()) {
            Some(v) => p.push(Frame { frame: fds.last().frame, cell: tdts_cell(v) }),
            None => p,
        }
    }
}

/// The first header from position `i` on whose field id is `id`; the header count if none.
pub open spec fn header_index(hs: Seq<TimeTableHeader>, id: u32, i: int) -> int
    decreases hs.len() - i,
{
    if i < 0 || i >= hs.len() {
        hs.len() as int
    } else if hs[i].field_id == id {
        i
    } else {
        header_index(hs, id, i + 1)
    }
}

/// The first field from position `i` on whose id is `id`; the field count if none.
pub open spec fn field_index(fs: Seq<Field>, id: u32, i: int) -> int
    decreases fs.len() - i,
{
    if i < 0 || i >= fs.len() {
        fs.len() as int
    } else if fs[i].field_id == id {
        i
    } else {
        field_index(fs, id, i + 1)
    }
}

/// The display name of a track: the header's name at its index, or `Layer <index>`.
pub open spec fn track_name(names: Seq<String>, track_no: usize) -> Seq<char> {
    if track_no < names.len() {
        names[track_no as int]@
    } else {
        "Layer "@ + decimal(track_no as nat)
    }
}

/// `layers` are the tracks, one for one, with names from `names` and compacted keyframes
/// read in the XDTS way (`xdts`) or the TDTS way; each layer starts at frame 0 and never
/// repeats a cell between neighbouring keyframes.
pub open spec fn layers_from_tracks(
    layers: Seq<Layer>,
    names: Seq<String>,
    tracks: Seq<Track>,
    xdts: bool,
) -> bool {
    &&& layers.len() == tracks.len()
    &&& forall|k: int|
        0 <= k < layers.len() ==> {
            &&& (#[trigger] layers[k]).name@ == track_name(names, tracks[k].track_no)
            &&& layers[k].frames@ == compact(
                if xdts {
                    xdts_raw(tracks[k].frames@)
                } else {
                    tdts_raw(tracks[k].frames@)
                },
            )
            &&& is_compacted(layers[k].frames@)
        }
}

/// `ts` is what an XDTS time table gives under `name`: the first field's tracks, named
/// from the header with that field's id; no layers without a field or such a header.
pub open spec fn is_xdts_sheet(ts: Timesheet, name: Seq<char>, tt: TimeTable) -> bool {
    &&& ts.name@ == name
    &&& ts.frame_count == tt.duration
    &&& if tt.fields@.len() == 0 {
        ts.layers@.len() == 0
    } else {
        let f = tt.fields@[0];
        let h = header_index(tt.time_table_headers@, f.field_id, 0);
        if h >= tt.time_table_headers@.len() {
            ts.layers@.len() == 0
        } else {
            layers_from_tracks(ts.layers@, tt.time_table_headers@[h].names@, f.tracks@, true)
        }
    }
}

/// `ts` is what a TDTS time table gives under `name`: the tracks of the field with id 4,
/// named from the header with id 4; no layers when either is missing.
pub open spec fn is_tdts_sheet(ts: Timesheet, name: Seq<char>, tt: TimeTable) -> bool {
    let fi = field_index(tt.fields@, TDTS_FIELD_ID, 0);
    let hi = header_index(tt.time_table_headers@, TDTS_FIELD_ID, 0);
    &&& ts.name@ == name
    &&& ts.frame_count == tt.duration
    &&& if fi < tt.fields@.len() && hi < tt.time_table_headers@.len() {
        layers_from_tracks(
            ts.layers@,
            tt.time_table_headers@[hi].names@,
            tt.fields@[fi].tracks@,
            false,
        )
    } else {
        ts.layers@.len() == 0
    }
}

fn find_header(hs: &Vec<TimeTableHeader>, id: u32) -> (r: usize)
    ensures
        r == header_index(hs@, id, 0),
{
    let mut i: usize = 0;
    while i < hs.len()
        invariant
            i <= hs@.len(),
            header_index(hs@, id, 0) == header_index(hs@, id, i as int),
        decreases hs.len() - i,
    {
        if hs[i].field_id == id {
            return i;
        }
        i = i + 1;
    }
    i
}

fn find_field(fs: &Vec<Field>, id: u32) -> (r: usize)
    ensures
        r == field_index(fs@, id, 0),
{
    let mut i: usize = 0;
    while i < fs.len()
        invariant
            i <= fs@.len(),
            field_index(fs@, id, 0) == field_index(fs@, id, i as int),
        decreases fs.len() - i,
    {
        if fs[i].field_id == id {
            return i;
        }
        i = i + 1;
    }
    i
}

/// The display name of a track: the name at its index, or `Layer <index>` when the index
/// is out of range.
pub fn layer_name(names: &Vec<String>, track_no: usize) -> (r: String)
    ensures
        r@ == track_name(names@, track_no),
{
    if track_no < names.len() {
        names[track_no].clone()
    } else {
        let mut s = String::from_str("Layer ");
        push_decimal(&mut s, track_no as u64);
        s
    }
}

fn first_token(fd: &FrameData) -> (r: Option<&String>)
    ensures
        match r {
            Some(v) => first_value(*fd) == Some(v@),
            None => first_value(*fd) is None,
        },
{
    if fd.data.len() > 0 && fd.data[0].values.len() > 0 {
        Some(&fd.data[0].values[0])
    } else {
        None
    }
}

/// Builds the layer of one track: its display name and its compacted keyframes, read in
/// the XDTS way when `xdts` holds, else in the TDTS way.
fn track_layer(names: &Vec<String>, track: &Track, xdts: bool) -> (r: Layer)
    ensures
        r.name@ == track_name(names@, track.track_no),
        r.frames@ == compact(
            if xdts {
                xdts_raw(track.frames@)
            } else {
                tdts_raw(track.frames@)
            },
        ),
        is_compacted(r.frames@),
{
    let name = layer_name(names, track.track_no);
    let mut frames: Vec<Frame> = Vec::new();
    let mut i: usize = 0;
    while i < track.frames.len()
        invariant
            i <= track.frames@.len(),
            frames@ == if xdts {
                xdts_raw(track.frames@.take(i as int))
            } else {
                tdts_raw(track.frames@.take(i as int))
            },
        decreases track.frames.len() - i,
    {
        let fd = &track.frames[i];
        proof {
            let t = track.frames@.take(i + 1);
            assert(t.drop_last() =~= track.frames@.take(i as int));
            assert(t.last() == *fd);
        }
        match first_token(fd) {
            Some(v) => {
                if xdts {
                    match parse_xdts_cell_value(v.as_str()) {
                        Some(c) => frames.push(Frame { frame: fd.frame, cell: c }),
                        None => {},
                    }
                } else {
                    let c = parse_tdts_cell_value(v.as_str());
                    frames.push(Frame { frame: fd.frame, cell: c });
                }
            },
            None => {},
        }
        i = i + 1;
    }
    assert(track.frames@.take(i as int) =~= track.frames@);
    let ghost raw = frames@;
    optimize_frames(&mut frames);
    proof {
        lemma_compact_shape(raw);
    }
    Layer { name, frames }
}

fn tracks_layers(names: &Vec<String>, tracks: &Vec<Track>, xdts: bool) -> (r: Vec<Layer>)
    ensures
        layers_from_tracks(r@, names@, tracks@, xdts),
{
    let mut layers: Vec<Layer> = Vec::new();
    let mut k: usize = 0;
    while k < tracks.len()
        invariant
            k <= tracks@.len(),
            layers_from_tracks(layers@, names@, tracks@.take(k as int), xdts),
        decreases tracks.len() - k,
    {
        let layer = track_layer(names, &tracks[k], xdts);
        layers.push(layer);
        k = k + 1;
        assert forall|j: int| 0 <= j < layers@.len() implies {
            &&& (#[trigger] layers@[j]).name@ == track_name(names@, tracks@.take(k as int)[j].track_no)
            &&& layers@[j].frames@ == compact(
                if xdts {
                    xdts_raw(tracks@.take(k as int)[j].frames@)
                } else {
                    tdts_raw(tracks@.take(k as int)[j].frames@)
                },
            )
            &&& is_compacted(layers@[j].frames@)
        } by {
            assert(tracks@.take(k as int)[j] == tracks@[j]);
            if j < k - 1 {
                assert(tracks@.take(k - 1)[j] == tracks@[j]);
            }
        }
    }
    assert(tracks@.take(k as int) =~= tracks@);
    layers
}

/// Normalizes an XDTS time table: the first field's tracks become the layers.
pub fn parse_xdts_timetable(name: String, time_table: &TimeTable) -> (r: Timesheet)
    ensures
        is_xdts_sheet(r, name@, *time_table),
{
    let frame_count = time_table.duration;
    if time_table.fields.len() == 0 {
        return Timesheet { name, frame_count, layers: Vec::new() };
    }
    let field = &time_table.fields[0];
    let h = find_header(&time_table.time_table_headers, field.field_id);
    let layers = if h < time_table.time_table_headers.len() {
        tracks_layers(&time_table.time_table_headers[h].names, &field.tracks, true)
    } else {
        Vec::new()
    };
    Timesheet { name, frame_count, layers }
}

/// Normalizes a TDTS time table: the tracks of the field with id 4 become the layers.
pub fn parse_tdts_timetable(name: String, time_table: &TimeTable) -> (r: Timesheet)
    ensures
        is_tdts_sheet(r, name@, *time_table),
{
    let frame_count = time_table.duration;
    let f = find_field(&time_table.fields, TDTS_FIELD_ID);
    let h = find_header(&time_table.time_table_headers, TDTS_FIELD_ID);
    let layers = if f < time_table.fields.len() && h < time_table.time_table_headers.len() {
        tracks_layers(&time_table.time_table_headers[h].names, &time_table.fields[f].tracks, false)
    } else {
        Vec::new()
    };
    Timesheet { name, frame_count, layers }
}


/// The name of an XDTS timesheet: `<file>-><table>`.
pub open spec fn xdts_sheet_name(file_name: Seq<char>, table: Seq<char>) -> Seq<char> {
    file_name + "->"@ + table
}

/// The name of a TDTS timesheet: `<file>-><cut>-><table>`.
pub open spec fn tdts_sheet_name(file_name: Seq<char>, cut: Seq<char>, table: Seq<char>) -> Seq<
    char,
> {
    file_name + "->"@ + cut + "->"@ + table
}

/// Normalizes every time table of an XDTS document, in order.
pub fn load_xdts(file_name: &str, root: &XDTSRoot) -> (r: Vec<Timesheet>)
    ensures
        r@.len() == root.time_tables@.len(),
        forall|k: int|
            0 <= k < r@.len() ==> is_xdts_sheet(
                #[trigger] r@[k],
                xdts_sheet_name(file_name@, root.time_tables@[k].name@),
                root.time_tables@[k],
            ),
{
    let mut sheets: Vec<Timesheet> = Vec::new();
    let mut k: usize = 0;
    while k < root.time_tables.len()
        invariant
            k <= root.time_tables@.len(),
            sheets@.len() == k,
            forall|j: int|
                0 <= j < k ==> is_xdts_sheet(
                    #[trigger] sheets@[j],
                    xdts_sheet_name(file_name@, root.time_tables@[j].name@),
                    root.time_tables@[j],
                ),
        decreases root.time_tables.len() - k,
    {
        let table = &root.time_tables[k];
        let mut name = String::from_str(file_name);
        name.append("->");
        name.append(table.name.as_str());
        let sheet = parse_xdts_timetable(name, table);
        sheets.push(sheet);
        k = k + 1;
    }
    sheets
}

/// A TDTS time table holds a field with id 4, and that field has tracks.
pub open spec fn has_tdts_tracks(tt: TimeTable) -> bool {
    let fi = field_index(tt.fields@, TDTS_FIELD_ID, 0);
    fi < tt.fields@.len() && tt.fields@[fi].tracks@.len() > 0
}

/// The (sheet, table) positions that a TDTS document yields timesheets for, among the first
/// `j` tables of sheet `s`: those that hold a field with id 4 with at least one track.
pub open spec fn tdts_table_picks(tables: Seq<TimeTable>, s: int, j: int) -> Seq<(int, int)>
    decreases j,
{
    if j <= 0 {
        Seq::empty()
    } else {
        let p = tdts_table_picks(tables, s, j - 1);
        if j - 1 < tables.len() && has_tdts_tracks(tables[j - 1]) {
            p.push((s, j - 1))
        } else {
            p
        }
    }
}

/// The (sheet, table) positions that the first `i` sheets of a TDTS document yield
/// timesheets for, in document order.
pub open spec fn tdts_picks(sheets: Seq<crate::types::TimeSheet>, i: int) -> Seq<(int, int)>
    decreases i,
{
    if i <= 0 || i > sheets.len() {
        Seq::empty()
    } else {
        tdts_picks(sheets, i - 1) + tdts_table_picks(
            sheets[i - 1].time_tables@,
            i - 1,
            sheets[i - 1].time_tables@.len() as int,
        )
    }
}

/// `r` holds, in order, the timesheets of the picked (sheet, table) positions.
pub open spec fn tdts_sheets_match(
    r: Seq<Timesheet>,
    file_name: Seq<char>,
    sheets: Seq<crate::types::TimeSheet>,
    picks: Seq<(int, int)>,
) -> bool {
    &&& r.len() == picks.len()
    &&& forall|k: int|
        0 <= k < r.len() ==> {
            let (s, t) = picks[k];
            let table = sheets[s].time_tables@[t];
            is_tdts_sheet(
                #[trigger] r[k],
                tdts_sheet_name(file_name, sheets[s].header.cut@, table.name@),
                table,
            )
        }
}

/// Normalizes the time tables of every sheet of a TDTS document, in order, skipping
/// those whose field with id 4 is missing or has no tracks.
pub fn load_tdts(file_name: &str, root: &TDTSRoot) -> (r: Vec<Timesheet>)
    ensures
        tdts_sheets_match(
            r@,
            file_name@,
            root.time_sheets@,
            tdts_picks(root.time_sheets@, root.time_sheets@.len() as int),
        ),
{
    let ghost all = root.time_sheets@;
    let mut out: Vec<Timesheet> = Vec::new();
    let mut i: usize = 0;
    while i < root.time_sheets.len()
        invariant
            i <= all.len(),
            all == root.time_sheets@,
            tdts_sheets_match(out@, file_name@, all, tdts_picks(all, i as int)),
        decreases root.time_sheets.len() - i,
    {
        let sheet = &root.time_sheets[i];
        let cut = sheet.header.cut.as_str();
        let ghost base = tdts_picks(all, i as int);
        let ghost tables = sheet.time_tables@;
        let mut j: usize = 0;
        while j < sheet.time_tables.len()
            invariant
                i < all.len(),
                all == root.time_sheets@,
                *sheet == all[i as int],
                tables == sheet.time_tables@,
                cut@ == sheet.header.cut@,
                j <= tables.len(),
                base == tdts_picks(all, i as int),
                tdts_sheets_match(
                    out@,
                    file_name@,
                    all,
                    base + tdts_table_picks(tables, i as int, j as int),
                ),
            decreases sheet.time_tables.len() - j,
        {
            let table = &sheet.time_tables[j];
            let ghost before = base + tdts_table_picks(tables, i as int, j as int);
            let ghost after = base + tdts_table_picks(tables, i as int, j + 1);
            let fi = find_field(&table.fields, TDTS_FIELD_ID);
            if fi < table.fields.len() && table.fields[fi].tracks.len() > 0 {
                let mut name = String::from_str(file_name);
                name.append("->");
                name.append(cut);
                name.append("->");
                name.append(table.name.as_str());
                let ts = parse_tdts_timetable(name, table);
                let ghost old_out = out@;
                out.push(ts);
                assert(after =~= before.push((i as int, j as int)));
                assert forall|k: int| 0 <= k < out@.len() implies {
                    let (s, t) = after[k];
                    let tt = all[s].time_tables@[t];
                    is_tdts_sheet(
                        #[trigger] out@[k],
                        tdts_sheet_name(file_name@, all[s].header.cut@, tt.name@),
                        tt,
                    )
                } by {
                    if k < old_out.len() {
                        assert(out@[k] == old_out[k]);
                        assert(after[k] == before[k]);
                    }
                }
            } else {
                assert(after =~= before);
            }
            j = j + 1;
        }
        proof {
            assert(tdts_picks(all, i + 1) =~= base + tdts_table_picks(
                tables,
                i as int,
                tables.len() as int,
            ));
        }
        i = i + 1;
    }
    out
}

/// A parsed document of either dialect.
pub enum Document {
    Xdts(XDTSRoot),
    Tdts(TDTSRoot),
}

/// Normalizes a parsed document into its timesheets, named after `file_name`.
pub fn load_timesheets(file_name: &str, document: &Document) -> (r: Vec<Timesheet>)
    ensures
        match document {
            Document::Xdts(root) => {
                &&& r@.len() == root.time_tables@.len()
                &&& forall|k: int|
                    0 <= k < r@.len() ==> is_xdts_sheet(
                        #[trigger] r@[k],
                        xdts_sheet_name(file_name@, root.time_tables@[k].name@),
                        root.time_tables@[k],
                    )
            },
            Document::Tdts(root) => tdts_sheets_match(
                r@,
                file_name@,
                root.time_sheets@,
                tdts_picks(root.time_sheets@, root.time_sheets@.len() as int),
            ),
        },
{
    match document {
        Document::Xdts(root) => load_xdts(file_name, root),
        Document::Tdts(root) => load_tdts(file_name, root),
    }
}


/// The two input dialects.
#[derive(Debug, Clone, Copy, PartialEq, Eq, Structural)]
pub enum Dialect {
    Xdts,
    Tdts,
}

/// Why a file cannot be loaded.
#[derive(Debug, Clone, Copy, PartialEq, Eq, Structural)]
pub enum LoadError {
    /// The file's extension names neither dialect.
    UnsupportedFormat,
}

/// `a` spells the lower-case ASCII word `lower`, letters in either case.
pub open spec fn same_ignoring_case(a: Seq<char>, lower: Seq<char>) -> bool {
    &&& a.len() == lower.len()
    &&& forall|i: int|
        0 <= i < a.len() ==> #[trigger] a[i] == lower[i] || ('a' <= lower[i] && lower[i] <= 'z'
            && (a[i] as u32) + 32 == lower[i] as u32)
}

fn eq_ignoring_case(a: &str, lower: &str) -> (r: bool)
    ensures
        r == same_ignoring_case(a@, lower@),
{
    let n = a.unicode_len();
    if n != lower.unicode_len() {
        return false;
    }
    let mut i: usize = 0;
    while i < n
        invariant
            n == a@.len() == lower@.len(),
            i <= n,
            forall|k: int|
                0 <= k < i ==> #[trigger] a@[k] == lower@[k] || ('a' <= lower@[k] && lower@[k]
                    <= 'z' && (a@[k] as u32) + 32 == lower@[k] as u32),
        decreases n - i,
    {
        let c = a.get_char(i);
        let l = lower.get_char(i);
        if !(c == l || ('a' <= l && l <= 'z' && (c as u32) + 32 == l as u32)) {
            return false;
        }
        i = i + 1;
    }
    true
}

/// The dialect that a file extension names, in any letter case: `xdts` or `tdts`.
pub fn dialect_of_extension(ext: &str) -> (r: Result<Dialect, LoadError>)
    ensures
        r == if same_ignoring_case(ext@, "xdts"@) {
            Ok::<Dialect, LoadError>(Dialect::Xdts)
        } else if same_ignoring_case(ext@, "tdts"@) {
            Ok(Dialect::Tdts)
        } else {
            Err(LoadError::UnsupportedFormat)
        },
{
    if eq_ignoring_case(ext, "xdts") {
        Ok(Dialect::Xdts)
    } else if eq_ignoring_case(ext, "tdts") {
        Ok(Dialect::Tdts)
    } else {
        Err(LoadError::UnsupportedFormat)
    }
}

/// The position of the first line feed at or after `i`; the length if there is none.
pub open spec fn newline_index(b: Seq<u8>, i: int) -> int
    decreases b.len() - i,
{
    if i < 0 || i >= b.len() {
        b.len() as int
    } else if b[i] == 10 {
        i
    } else {
        newline_index(b, i + 1)
    }
}

/// The text after its first line: empty when there is no line feed.
pub open spec fn after_first_line(b: Seq<u8>) -> Seq<u8> {
    let e = newline_index(b, 0);
    if e < b.len() {
        b.skip(e + 1)
    } else {
        Seq::empty()
    }
}

/// Drops the banner line that both dialects put before the JSON payload.
pub fn strip_banner(text: &[u8]) -> (r: Vec<u8>)
    ensures
        r@ == after_first_line(text@),
{
    let mut i: usize = 0;
    while i < text.len() && text[i] != 10
        invariant
            i <= text@.len(),
            newline_index(text@, 0) == newline_index(text@, i as int),
        decreases text.len() - i,
    {
        i = i + 1;
    }
    let mut out: Vec<u8> = Vec::new();
    if i < text.len() {
        let mut j: usize = i + 1;
        while j < text.len()
            invariant
                i < j <= text@.len(),
                out@ == text@.subrange(i + 1, j as int),
            decreases text.len() - j,
        {
            out.push(text[j]);
            j = j + 1;
            assert(out@ =~= text@.subrange(i + 1, j as int));
        }
        assert(out@ =~= text@.skip(i + 1));
    }
    out
}

} // verus!
