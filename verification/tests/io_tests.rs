use rvm2glb::io::{read_slice, DirSink, InputHandle, MemSink, OutputHandle, OutputSink};

#[test]
fn vec_input_read_at_is_short_at_eof() {
    let data: Vec<u8> = (0..10).collect();
    assert_eq!(data.size(), 10);
    let mut buf = [0u8; 4];
    assert_eq!(data.read_at(8, &mut buf).unwrap(), 2); // only 2 bytes left
    assert_eq!(&buf[..2], &[8, 9]);
    assert_eq!(data.read_at(10, &mut buf).unwrap(), 0); // at EOF
}

#[test]
fn mem_sink_collects_named_outputs_in_completion_order() {
    let mut sink = MemSink::new();
    {
        let mut a = sink.open("a.glb").unwrap();
        a.write(b"AA").unwrap();
        a.write(b"BB").unwrap(); // dropped (closed) here
    }
    {
        let mut b = sink.open("status_file.json").unwrap();
        b.write(b"{}").unwrap();
    }
    let files = sink.into_files();
    assert_eq!(files.len(), 2);
    assert_eq!(files[0], ("a.glb".to_string(), b"AABB".to_vec()));
    assert_eq!(files[1], ("status_file.json".to_string(), b"{}".to_vec()));
}

#[test]
fn mem_sink_outputs_follow_one_another() {
    let mut sink = MemSink::new();
    let mut h = sink.open_output("first.glb");
    h.append(b"1");
    h.close();
    let mut h = sink.open_output("second.glb");
    h.append(b"22");
    h.close();
    let files = sink.into_files();
    assert_eq!(files[0].0, "first.glb");
    assert_eq!(files[1], ("second.glb".to_string(), b"22".to_vec()));
}

#[test]
fn mem_sink_completes_an_output_on_close_or_drop_alike() {
    let mut sink = MemSink::new();
    {
        let mut a = sink.open("closed.glb").unwrap();
        a.write(b"x").unwrap();
        a.close();
    }
    {
        let mut b = sink.open("dropped.glb").unwrap();
        b.write(b"yz").unwrap();
    }
    let files = sink.into_files();
    assert_eq!(
        files,
        vec![("closed.glb".to_string(), b"x".to_vec()), ("dropped.glb".to_string(), b"yz".to_vec())]
    );
}

#[test]
fn read_slice_copies_what_fits_and_leaves_the_rest() {
    let data = [1u8, 2, 3, 4, 5];
    let mut buf = [9u8; 3];
    assert_eq!(read_slice(&data, 1, &mut buf), 3);
    assert_eq!(buf, [2, 3, 4]);
    let mut buf = [9u8; 4];
    assert_eq!(read_slice(&data, 3, &mut buf), 2);
    assert_eq!(buf, [4, 5, 9, 9]);
    assert_eq!(read_slice(&data, 5, &mut buf), 0);
    assert_eq!(read_slice(&data, u64::MAX, &mut buf), 0);
}

#[test]
fn static_slice_input_reads_like_a_vec() {
    let data: &'static [u8] = b"hello";
    assert_eq!(data.size(), 5);
    let mut buf = [0u8; 8];
    assert_eq!(data.read_at(2, &mut buf).unwrap(), 3);
    assert_eq!(&buf[..3], b"llo");
}

#[test]
fn dir_sink_keeps_its_directory() {
    let s = DirSink::new("out/models");
    assert_eq!(s.dir(), "out/models");
}
