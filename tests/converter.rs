use sts_convert::converter::{encode_layer_name, encode_sts, ConvertError, NameWarning};
use sts_convert::parser::parse_tdts_timetable;
use sts_convert::types::{
    DataItem, Field, Frame, FrameData, Layer, TimeTable, TimeTableHeader, Timesheet, Track,
};

fn sheet(frame_count: u32, layers: Vec<Layer>) -> Timesheet {
    Timesheet { name: "s".to_string(), frame_count, layers }
}

fn layer(name: &str, frames: Vec<Frame>) -> Layer {
    Layer { name: name.to_string(), frames }
}

#[test]
fn end_to_end_bytes() {
    let l = layer("A", vec![Frame { frame: 0, cell: 0 }, Frame { frame: 2, cell: 3 }]);
    let out = encode_sts(&sheet(5, vec![l])).unwrap();
    let mut want: Vec<u8> = vec![0x11];
    want.extend_from_slice(b"ShiraheiTimeSheet");
    want.extend_from_slice(&[1, 5, 0, 0, 0]);
    want.extend_from_slice(&[0, 0, 0, 0, 3, 0, 3, 0, 3, 0]);
    want.extend_from_slice(&[1, b'A']);
    assert_eq!(out.bytes, want);
    assert!(out.warnings.is_empty());
    assert_eq!(out.bytes[18], 1);
    assert_eq!(&out.bytes[19..21], &[5, 0]);
}

#[test]
fn too_many_layers_fails() {
    let layers: Vec<Layer> = (0..256).map(|_| layer("x", vec![])).collect();
    assert_eq!(
        encode_sts(&sheet(1, layers)).err(),
        Some(ConvertError::LayerLimit { actual: 256, max: 255 })
    );
}

#[test]
fn too_many_frames_fails() {
    assert_eq!(
        encode_sts(&sheet(65536, vec![layer("x", vec![])])).err(),
        Some(ConvertError::FrameLimit { actual: 65536, max: 65535 })
    );
}

#[test]
fn largest_sheet_succeeds() {
    let layers: Vec<Layer> = (0..255).map(|_| layer("x", vec![Frame { frame: 0, cell: 513 }])).collect();
    let out = encode_sts(&sheet(65535, layers)).unwrap();
    assert_eq!(out.bytes.len(), 23 + 255 * 65535 * 2 + 255 * 2);
    assert_eq!(out.bytes[18], 255);
    assert_eq!(&out.bytes[19..21], &[0xff, 0xff]);
    assert_eq!(&out.bytes[23..25], &[1, 2]);
}

#[test]
fn empty_sheet_is_header_only() {
    let out = encode_sts(&sheet(0, vec![])).unwrap();
    assert_eq!(out.bytes.len(), 23);
    assert_eq!(&out.bytes[21..23], &[0, 0]);
}

#[test]
fn frame_count_high_byte() {
    let out = encode_sts(&sheet(300, vec![])).unwrap();
    assert_eq!(&out.bytes[19..21], &[44, 1]);
}

#[test]
fn shift_jis_name() {
    let e = encode_layer_name("あA");
    assert_eq!(e.bytes, vec![0x82, 0xa0, b'A']);
    assert!(!e.unmappable);
    assert!(!e.truncated);
}

#[test]
fn long_name_truncated_to_255() {
    let name = "あ".repeat(200);
    let e = encode_layer_name(&name);
    assert_eq!(e.bytes.len(), 255);
    assert!(e.truncated);
    let out = encode_sts(&sheet(1, vec![layer(&name, vec![])])).unwrap();
    assert_eq!(out.bytes[25], 255);
    assert_eq!(out.bytes.len(), 23 + 2 + 1 + 255);
    assert_eq!(out.warnings, vec![NameWarning::Truncated { layer: 0 }]);
}

#[test]
fn unmappable_name_warns() {
    let out = encode_sts(&sheet(0, vec![layer("ok", vec![]), layer("\u{1F600}", vec![])])).unwrap();
    assert_eq!(out.warnings, vec![NameWarning::Unmappable { layer: 1 }]);
    assert!(out.bytes.len() > 23 + 3 + 1);
}

#[test]
fn tdts_scenario_from_table_to_bytes() {
    let entry = |frame: u32, token: &str| FrameData {
        frame,
        data: vec![DataItem { values: vec![token.to_string()] }],
    };
    let track = Track { track_no: 0, frames: vec![entry(0, "0"), entry(2, "3"), entry(4, "3")] };
    let tt = TimeTable {
        name: "T".to_string(),
        duration: 5,
        fields: vec![Field { field_id: 4, tracks: vec![track] }],
        time_table_headers: vec![TimeTableHeader { field_id: 4, names: vec!["L".to_string()] }],
    };
    let ts = parse_tdts_timetable("f->c->T".to_string(), &tt);
    let kf: Vec<(u32, u16)> = ts.layers[0].frames.iter().map(|f| (f.frame, f.cell)).collect();
    assert_eq!(kf, vec![(0, 0), (2, 3)]);
    let out = encode_sts(&ts).unwrap();
    assert_eq!(out.bytes[18], 1);
    assert_eq!(&out.bytes[19..21], &[5, 0]);
    assert_eq!(&out.bytes[23..33], &[0, 0, 0, 0, 3, 0, 3, 0, 3, 0]);
}

#[test]
fn ascii_name_kept_and_cut() {
    let e = encode_layer_name("A");
    assert_eq!(e.bytes, vec![0x41]);
    let long = "a".repeat(300);
    let e = encode_layer_name(&long);
    assert_eq!(e.bytes, vec![b'a'; 255]);
    assert!(e.truncated && !e.unmappable);
}
