use sts_convert::parser::{
    dialect_of_extension, layer_name, load_timesheets, parse_tdts_timetable,
    parse_xdts_timetable, strip_banner, Dialect, Document, LoadError,
};
use sts_convert::types::{
    DataItem, Field, FrameData, Header, TDTSRoot, TimeSheet, TimeTable, TimeTableHeader, Track,
    XDTSRoot,
};

fn entry(frame: u32, token: &str) -> FrameData {
    FrameData { frame, data: vec![DataItem { values: vec![token.to_string()] }] }
}

fn table(name: &str, duration: u32, fields: Vec<Field>, headers: Vec<TimeTableHeader>) -> TimeTable {
    TimeTable { name: name.to_string(), duration, fields, time_table_headers: headers }
}

fn header(field_id: u32, names: &[&str]) -> TimeTableHeader {
    TimeTableHeader { field_id, names: names.iter().map(|s| s.to_string()).collect() }
}

fn pairs(frames: &[sts_convert::types::Frame]) -> Vec<(u32, u16)> {
    frames.iter().map(|x| (x.frame, x.cell)).collect()
}

#[test]
fn tdts_end_to_end_keyframes() {
    let track = Track { track_no: 0, frames: vec![entry(0, "0"), entry(2, "3"), entry(4, "3")] };
    let tt = table("T", 5, vec![Field { field_id: 4, tracks: vec![track] }], vec![header(4, &["A"])]);
    let ts = parse_tdts_timetable("f->c->T".to_string(), &tt);
    assert_eq!(ts.frame_count, 5);
    assert_eq!(ts.layers.len(), 1);
    assert_eq!(ts.layers[0].name, "A");
    assert_eq!(pairs(&ts.layers[0].frames), vec![(0, 0), (2, 3)]);
}

#[test]
fn tdts_uses_only_field_four() {
    let t3 = Track { track_no: 0, frames: vec![entry(0, "9")] };
    let t4 = Track { track_no: 1, frames: vec![entry(0, "abc"), entry(1, "2")] };
    let tt = table(
        "T",
        3,
        vec![Field { field_id: 3, tracks: vec![t3] }, Field { field_id: 4, tracks: vec![t4] }],
        vec![header(3, &["x"]), header(4, &["a", "b"])],
    );
    let ts = parse_tdts_timetable("n".to_string(), &tt);
    assert_eq!(ts.layers.len(), 1);
    assert_eq!(ts.layers[0].name, "b");
    assert_eq!(pairs(&ts.layers[0].frames), vec![(0, 0), (1, 2)]);
}

#[test]
fn tdts_without_field_four_has_no_layers() {
    let t = Track { track_no: 0, frames: vec![entry(0, "1")] };
    let tt = table("T", 3, vec![Field { field_id: 3, tracks: vec![t] }], vec![header(3, &["x"])]);
    let ts = parse_tdts_timetable("n".to_string(), &tt);
    assert!(ts.layers.is_empty());
    assert_eq!(ts.frame_count, 3);
}

#[test]
fn xdts_uses_first_field_and_symbols() {
    let track = Track {
        track_no: 0,
        frames: vec![
            entry(2, "CEL_7"),
            entry(3, "SYMBOL_TICK_1"),
            entry(4, "SYMBOL_HYPHEN"),
            entry(5, "SYMBOL_NULL_CELL"),
            entry(6, "SYMBOL_TICK_2"),
        ],
    };
    let other = Track { track_no: 0, frames: vec![entry(0, "1")] };
    let tt = table(
        "cut1",
        8,
        vec![Field { field_id: 0, tracks: vec![track] }, Field { field_id: 9, tracks: vec![other] }],
        vec![header(9, &["no"]), header(0, &["Body"])],
    );
    let ts = parse_xdts_timetable("file.xdts->cut1".to_string(), &tt);
    assert_eq!(ts.name, "file.xdts->cut1");
    assert_eq!(ts.frame_count, 8);
    assert_eq!(ts.layers.len(), 1);
    assert_eq!(ts.layers[0].name, "Body");
    assert_eq!(pairs(&ts.layers[0].frames), vec![(0, 0), (2, 7), (5, 0)]);
}

#[test]
fn xdts_without_fields_has_no_layers() {
    let tt = table("t", 4, vec![], vec![]);
    let ts = parse_xdts_timetable("n".to_string(), &tt);
    assert!(ts.layers.is_empty());
    assert_eq!(ts.frame_count, 4);
}

#[test]
fn xdts_without_matching_header_has_no_layers() {
    let t = Track { track_no: 0, frames: vec![entry(0, "1")] };
    let tt = table("t", 4, vec![Field { field_id: 0, tracks: vec![t] }], vec![header(1, &["x"])]);
    let ts = parse_xdts_timetable("n".to_string(), &tt);
    assert!(ts.layers.is_empty());
}

#[test]
fn entries_without_values_are_skipped() {
    let track = Track {
        track_no: 0,
        frames: vec![
            FrameData { frame: 0, data: vec![] },
            FrameData { frame: 1, data: vec![DataItem { values: vec![] }] },
            entry(2, "5"),
        ],
    };
    let tt = table("t", 4, vec![Field { field_id: 4, tracks: vec![track] }], vec![header(4, &["a"])]);
    let ts = parse_tdts_timetable("n".to_string(), &tt);
    assert_eq!(pairs(&ts.layers[0].frames), vec![(0, 0), (2, 5)]);
}

#[test]
fn layer_name_falls_back_to_index() {
    let names = vec!["A".to_string(), "B".to_string()];
    assert_eq!(layer_name(&names, 1), "B");
    assert_eq!(layer_name(&names, 7), "Layer 7");
    assert_eq!(layer_name(&names, 12345), "Layer 12345");
}

#[test]
fn load_xdts_names_each_table() {
    let root = XDTSRoot { time_tables: vec![table("a", 1, vec![], vec![]), table("b", 2, vec![], vec![])] };
    let sheets = load_timesheets("f.xdts", &Document::Xdts(root));
    assert_eq!(sheets.len(), 2);
    assert_eq!(sheets[0].name, "f.xdts->a");
    assert_eq!(sheets[1].name, "f.xdts->b");
    assert_eq!(sheets[1].frame_count, 2);
}

#[test]
fn load_tdts_skips_tables_without_fields() {
    let t = Track { track_no: 0, frames: vec![entry(0, "1")] };
    let full = table("t2", 6, vec![Field { field_id: 4, tracks: vec![t] }], vec![header(4, &["L"])]);
    let sheet = TimeSheet {
        header: Header { cut: "C1".to_string() },
        time_tables: vec![
            table("t1", 3, vec![], vec![]),
            full,
            table(
                "t3",
                2,
                vec![Field { field_id: 1, tracks: vec![Track { track_no: 0, frames: vec![entry(0, "1")] }] }],
                vec![header(1, &["x"])],
            ),
            table("t4", 2, vec![Field { field_id: 4, tracks: vec![] }], vec![header(4, &["y"])]),
        ],
    };
    let root = TDTSRoot { time_sheets: vec![sheet] };
    let sheets = load_timesheets("f.tdts", &Document::Tdts(root));
    assert_eq!(sheets.len(), 1);
    assert_eq!(sheets[0].name, "f.tdts->C1->t2");
    assert_eq!(sheets[0].frame_count, 6);
    assert_eq!(sheets[0].layers[0].name, "L");
}

#[test]
fn dialect_from_extension() {
    assert_eq!(dialect_of_extension("xdts"), Ok(Dialect::Xdts));
    assert_eq!(dialect_of_extension("XDTS"), Ok(Dialect::Xdts));
    assert_eq!(dialect_of_extension("TdTs"), Ok(Dialect::Tdts));
    assert_eq!(dialect_of_extension("json"), Err(LoadError::UnsupportedFormat));
    assert_eq!(dialect_of_extension("xdt"), Err(LoadError::UnsupportedFormat));
}

#[test]
fn banner_line_is_dropped() {
    assert_eq!(strip_banner(b"exchangeDigitalTimeSheet Save Data\n{\"a\":1}\n"), b"{\"a\":1}\n".to_vec());
    assert_eq!(strip_banner(b"only a banner"), Vec::<u8>::new());
    assert_eq!(strip_banner(b"\n{}"), b"{}".to_vec());
}

#[test]
fn load_tdts_skips_table_without_field_four() {
    let t = Track { track_no: 0, frames: vec![entry(0, "1")] };
    let only_one = table("t", 3, vec![Field { field_id: 1, tracks: vec![t] }], vec![header(1, &["x"])]);
    let sheet = TimeSheet { header: Header { cut: "C".to_string() }, time_tables: vec![only_one] };
    let sheets = load_timesheets("f.tdts", &Document::Tdts(TDTSRoot { time_sheets: vec![sheet] }));
    assert!(sheets.is_empty());
}
