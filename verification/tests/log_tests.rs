use library::log::encode_record;
use library::log_reader::{readable_prefix, READ_CHUNK_SIZE};
use library::{read_record, ReadError, Reader, Record, RecordType, HEADER_LENGTH};

fn record() -> Vec<u8> {
    let data = b"deadbeef";
    let mut record = Vec::new();
    record.extend_from_slice(&(RecordType::Stdout.to_u8()).to_be_bytes());
    record.extend_from_slice(&(data.len() as u64).to_be_bytes());
    record.extend_from_slice(data);
    record
}

#[test]
fn test_chunk_sizes() {
    let record_header_size = Record {
        record_type: RecordType::Stdout,
        data: vec![],
    }
    .len();
    assert!(READ_CHUNK_SIZE as usize > library::supervisor::READ_CHUNK_SIZE + record_header_size);
}

#[test]
fn test_write_record() {
    let data = b"deadbeef";
    let file_contents = encode_record(RecordType::Stdout, data);
    let mut expected_contents = Vec::new();
    expected_contents.extend_from_slice(&(RecordType::Stdout.to_u8()).to_be_bytes());
    expected_contents.extend_from_slice(&(data.len() as u64).to_be_bytes());
    expected_contents.extend_from_slice(data);
    assert_eq!(file_contents, expected_contents)
}

#[test]
fn test_read_record() {
    let input = record();
    let record = read_record(&input).unwrap();
    assert_eq!(
        record,
        Record {
            record_type: RecordType::Stdout,
            data: b"deadbeef".to_vec()
        }
    );
}

#[test]
fn test_read_records() {
    let record_len = record().len();
    let records_data: Vec<u8> = record().into_iter().cycle().take(record_len * 4).collect();

    // two complete records plus some partial data are in the log
    let mut reader = Reader::new();
    let written = &records_data[..record_len * 2 + 3];
    let mut received = reader.read_records(&written[reader.pos() as usize..]);
    assert_eq!(received.len(), 2);
    assert_eq!(reader.pos() as usize, record_len * 2);

    // the rest has been written by now
    received.extend(reader.read_records(&records_data[reader.pos() as usize..]));
    assert_eq!(reader.pos() as usize, record_len * 4);
    assert_eq!(received.len(), 4);
    for record in received {
        assert_eq!(
            record,
            Record {
                record_type: RecordType::Stdout,
                data: b"deadbeef".to_vec()
            }
        );
    }
}

#[test]
fn test_log_write_and_read() {
    let mut log = encode_record(RecordType::Stdout, b"hello stdout!");
    log.extend(encode_record(RecordType::Stderr, b"hello stderr!"));

    let mut reader = Reader::new();
    let records = reader.read_records(&log);
    assert_eq!(
        records,
        vec![
            Record {
                record_type: RecordType::Stdout,
                data: b"hello stdout!".to_vec()
            },
            Record {
                record_type: RecordType::Stderr,
                data: b"hello stderr!".to_vec()
            }
        ]
    );
    assert_eq!(reader.pos() as usize, log.len());
}

#[test]
fn header_is_type_byte_then_big_endian_length() {
    let bytes = library::encode_header(RecordType::Stderr, 0x0102_0304_0506_0708);
    assert_eq!(bytes, vec![1, 1, 2, 3, 4, 5, 6, 7, 8]);
    assert_eq!(bytes.len(), HEADER_LENGTH);
}

#[test]
fn record_length_is_header_plus_data() {
    let record = Record {
        record_type: RecordType::Stderr,
        data: vec![0; 300],
    };
    assert_eq!(record.len(), 309);
    assert_eq!(encode_record(RecordType::Stderr, &record.data).len(), record.len());
}

#[test]
fn long_record_length_is_read_from_all_eight_bytes() {
    // 0x0100 = 256 bytes of data: the length needs two bytes of the header
    let data: Vec<u8> = (0..256u32).map(|i| i as u8).collect();
    let bytes = encode_record(RecordType::Stderr, &data);
    assert_eq!(&bytes[..HEADER_LENGTH], &[1, 0, 0, 0, 0, 0, 0, 1, 0]);
    let record = read_record(&bytes).unwrap();
    assert_eq!(record.record_type, RecordType::Stderr);
    assert_eq!(record.data, data);
}

#[test]
fn incomplete_records_read_nothing() {
    let bytes = encode_record(RecordType::Stdout, b"deadbeef");
    for k in 0..bytes.len() {
        assert_eq!(read_record(&bytes[..k]), Err(ReadError::UnexpectedEof));
        let mut reader = Reader::new();
        assert!(reader.read_records(&bytes[..k]).is_empty());
        assert_eq!(reader.pos(), 0);
    }
}

#[test]
fn chunked_reading_matches_whole_reading() {
    let mut log = Vec::new();
    for (i, text) in ["a", "", "bcd", "efghij"].iter().enumerate() {
        let t = if i % 2 == 0 { RecordType::Stdout } else { RecordType::Stderr };
        log.extend(encode_record(t, text.as_bytes()));
    }
    let whole = Reader::new().read_records(&log);
    for k in 0..=log.len() {
        let mut reader = Reader::new();
        let mut pieces = reader.read_records(&log[..k]);
        let pos = reader.pos() as usize;
        pieces.extend(reader.read_records(&log[pos..]));
        assert_eq!(pieces, whole);
        assert_eq!(reader.pos() as usize, log.len());
    }
}

#[test]
fn record_types_and_bytes() {
    assert_eq!(RecordType::try_from(0), Ok(RecordType::Stdout));
    assert_eq!(RecordType::try_from(1), Ok(RecordType::Stderr));
    assert_eq!(RecordType::try_from(2), Err(()));
    assert_eq!(RecordType::Stderr.to_u8(), 1);
}

#[test]
fn bad_type_byte_is_detected() {
    let mut bytes = encode_record(RecordType::Stdout, b"x");
    let good = bytes.len();
    assert_eq!(readable_prefix(&bytes), good);
    bytes.push(0);
    assert_eq!(readable_prefix(&bytes), good + 1);
    bytes.pop();
    bytes.push(7);
    bytes.extend(encode_record(RecordType::Stderr, b"y"));
    assert_eq!(readable_prefix(&bytes), good);
    assert_eq!(Reader::new().read_records(&bytes[..good]).len(), 1);
    assert_eq!(readable_prefix(&[]), 0);
}

#[test]
fn reading_a_chunk_reports_end_of_log() {
    let bytes = encode_record(RecordType::Stdout, b"abc");
    let mut reader = Reader::new();
    let (records, eof_reached) = reader.read_chunk(&bytes);
    assert_eq!(records.len(), 1);
    assert!(eof_reached);
    assert!(Reader::finished(true, false));
    assert!(!Reader::finished(true, true));
    assert!(!Reader::finished(false, false));
}

#[test]
fn tailing_a_growing_log_reads_every_record_once() {
    let writes: [(RecordType, &[u8]); 4] = [
        (RecordType::Stdout, b"first"),
        (RecordType::Stderr, b""),
        (RecordType::Stderr, b"third record"),
        (RecordType::Stdout, b"4"),
    ];
    let mut file: Vec<u8> = Vec::new();
    let mut reader = Reader::new();
    let mut sent = Vec::new();
    for (t, d) in writes.iter() {
        // the writer appends a record in two pieces; a round of tailing runs after each
        let bytes = encode_record(*t, d);
        let half = bytes.len() / 2;
        for piece in [&bytes[..half], &bytes[half..]] {
            file.extend_from_slice(piece);
            let (records, eof_reached) = reader.read_chunk(&file[reader.pos() as usize..]);
            sent.extend(records);
            assert!(!Reader::finished(eof_reached, true));
        }
    }
    // the writer has stopped: the last round reads the rest and tailing ends
    let (records, eof_reached) = reader.read_chunk(&file[reader.pos() as usize..]);
    sent.extend(records);
    assert!(Reader::finished(eof_reached, false));
    assert_eq!(sent, Reader::new().read_records(&file));
    assert_eq!(sent.len(), writes.len());
    for (record, (t, d)) in sent.iter().zip(writes.iter()) {
        assert_eq!(record.record_type, *t);
        assert_eq!(&record.data[..], *d);
    }
}
