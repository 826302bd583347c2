use envdump::decode::fields_of;
use envdump::split::split_records;

fn field_bytes(buf: &[u8], f: &envdump::decode::Field) -> (Vec<u8>, Vec<u8>) {
    (
        buf[f.name_start..f.name_end].to_vec(),
        buf[f.value_start..f.value_end].to_vec(),
    )
}

#[test]
fn split_no_nul_yields_whole_buffer() {
    let buf = b"PATH=/bin";
    let rs = split_records(buf);
    assert_eq!(rs.len(), 1);
    assert_eq!(&buf[rs[0].start..rs[0].end], b"PATH=/bin");
}

#[test]
fn split_trailing_nul_no_phantom_record() {
    let buf = b"a=1\0";
    let rs = split_records(buf);
    assert_eq!(rs.len(), 1);
    assert_eq!(&buf[rs[0].start..rs[0].end], b"a=1");
}

#[test]
fn split_empty_buffer_yields_nothing() {
    let rs = split_records(b"");
    assert_eq!(rs.len(), 0);
}

#[test]
fn split_leading_and_double_nuls_yield_empty_records() {
    let buf = b"\0\0a=b\0\0";
    let rs = split_records(buf);
    let chunks: Vec<&[u8]> = rs.iter().map(|r| &buf[r.start..r.end]).collect();
    assert_eq!(chunks, vec![&b""[..], b"", b"a=b", b""]);
}

#[test]
fn empty_records_are_suppressed() {
    let buf = b"\0\0a=b\0\0";
    let fs = fields_of(buf);
    assert_eq!(fs.len(), 1);
    assert_eq!(field_bytes(buf, &fs[0]), (b"a".to_vec(), b"b".to_vec()));
}

#[test]
fn decode_without_equals_gives_empty_value() {
    let buf = b"NAME\0";
    let fs = fields_of(buf);
    assert_eq!(fs.len(), 1);
    assert_eq!(field_bytes(buf, &fs[0]), (b"NAME".to_vec(), b"".to_vec()));
}

#[test]
fn decode_splits_at_first_equals_only() {
    let buf = b"A=b=c\0";
    let fs = fields_of(buf);
    assert_eq!(fs.len(), 1);
    assert_eq!(field_bytes(buf, &fs[0]), (b"A".to_vec(), b"b=c".to_vec()));
}

#[test]
fn decode_trailing_equals_gives_empty_value() {
    let buf = b"EMPTY=\0";
    let fs = fields_of(buf);
    assert_eq!(fs.len(), 1);
    assert_eq!(field_bytes(buf, &fs[0]), (b"EMPTY".to_vec(), b"".to_vec()));
}

#[test]
fn decode_leading_equals_gives_empty_name() {
    let buf = b"=v\0";
    let fs = fields_of(buf);
    assert_eq!(fs.len(), 1);
    assert_eq!(field_bytes(buf, &fs[0]), (b"".to_vec(), b"v".to_vec()));
}

#[test]
fn round_trip_on_well_formed_input() {
    let pairs: Vec<(&[u8], &[u8])> =
        vec![(b"PATH", b"/bin"), (b"HOME", b"/root"), (b"EMPTY", b""), (b"X", b"a=b")];
    let mut buf: Vec<u8> = Vec::new();
    for (name, value) in &pairs {
        buf.extend_from_slice(name);
        buf.push(b'=');
        buf.extend_from_slice(value);
        buf.push(0);
    }
    let fs = fields_of(&buf);
    assert_eq!(fs.len(), pairs.len());
    for (f, (name, value)) in fs.iter().zip(pairs.iter()) {
        assert_eq!(field_bytes(&buf, f), (name.to_vec(), value.to_vec()));
    }
}

#[test]
fn buffers_of_only_nuls_yield_no_fields() {
    assert_eq!(fields_of(b"\0").len(), 0);
    assert_eq!(fields_of(b"\0\0").len(), 0);
}

#[test]
fn lone_equals_gives_empty_name_and_value() {
    let buf = b"=\0";
    let fs = fields_of(buf);
    assert_eq!(fs.len(), 1);
    assert_eq!(field_bytes(buf, &fs[0]), (b"".to_vec(), b"".to_vec()));
}

#[test]
fn non_utf8_bytes_pass_through() {
    let buf = b"K\xff=\xfe\0";
    let fs = fields_of(buf);
    assert_eq!(fs.len(), 1);
    assert_eq!(field_bytes(buf, &fs[0]), (b"K\xff".to_vec(), b"\xfe".to_vec()));
}
