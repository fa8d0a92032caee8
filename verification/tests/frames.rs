use odx_desktop::frames::{
    write_single_uds_frame, write_uds_sequence, BinSequenceFrameWriter, SingleBinFrameWriter,
};

#[test]
fn single_frame_goes_to_the_output_file() {
    let mut w = SingleBinFrameWriter::new("/tmp/out/request.bin".to_string());
    let r = write_single_uds_frame(&mut w, &[0x22, 0xF1, 0x90], Some("ECU_A"));
    assert_eq!(r, Ok("/tmp/out/request.bin".to_string()));
    assert_eq!(w.planned.len(), 1);
    assert_eq!(w.planned[0].path, "/tmp/out/request.bin");
    assert_eq!(w.planned[0].bytes, vec![0x22, 0xF1, 0x90]);
}

#[test]
fn sequence_frames_are_numbered_from_one() {
    let mut w = BinSequenceFrameWriter::new("/tmp/seq".to_string());
    let frames = vec![vec![0x10, 0x03], vec![0x27, 0x01], vec![0x3E]];
    let names = write_uds_sequence(&mut w, &frames).unwrap();
    assert_eq!(names, vec!["frame_001.bin", "frame_002.bin", "frame_003.bin"]);
    assert_eq!(w.output_dir, "/tmp/seq");
    let planned: Vec<(String, Vec<u8>)> = w.planned.iter().map(|p| (p.path.clone(), p.bytes.clone())).collect();
    assert_eq!(
        planned,
        vec![
            ("frame_001.bin".to_string(), vec![0x10, 0x03]),
            ("frame_002.bin".to_string(), vec![0x27, 0x01]),
            ("frame_003.bin".to_string(), vec![0x3E]),
        ]
    );
}

#[test]
fn long_sequences_widen_the_number() {
    let mut w = BinSequenceFrameWriter::new("d".to_string());
    let frames: Vec<Vec<u8>> = (0..1000).map(|i| vec![(i % 256) as u8]).collect();
    let names = write_uds_sequence(&mut w, &frames).unwrap();
    assert_eq!(names[98], "frame_099.bin");
    assert_eq!(names[999], "frame_1000.bin");
}

#[test]
fn empty_sequence_writes_nothing() {
    let mut w = BinSequenceFrameWriter::new("d".to_string());
    assert_eq!(write_uds_sequence(&mut w, &[]).unwrap(), Vec::<String>::new());
    assert!(w.planned.is_empty());
}
