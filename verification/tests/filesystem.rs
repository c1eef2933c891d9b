use vertx::filesystem::{read_len, read_slice, write_slice};
use vertx::filesystem::buffer::{Buffer, State};
use vertx::filesystem::file::{File, SeekFrom};
use vertx::filesystem::fs::{model_name, Filesystem};
use vertx::filesystem::{Error as FsError, ErrorKind};
use vertx::filesystem::header::{next_id, Error, Header, Model};

fn block_with_words(words: &[(usize, u32)]) -> Vec<u8> {
    let mut block = vec![0u8; 512];
    for &(i, w) in words {
        block[4 * i..4 * i + 4].copy_from_slice(&w.to_le_bytes());
    }
    block
}

fn model(start: u32, len: u8, id: u8) -> Model {
    let mut model = Model::empty();
    model.set_start(start);
    model.set_len(len);
    model.set_id(id);
    model
}

#[test]
fn model_ids_full() {
    assert_eq!(next_id(u64::MAX), None);
}

#[test]
fn model_ids_next() {
    assert_eq!(next_id(0b0100_0000), Some(7));
}

#[test]
fn model_ids_wrapping() {
    assert_eq!(next_id(0xFFFF_FFFF_FFFF_FFFB), Some(2));
}

#[test]
fn missing() {
    let header = Header::from_block(vec![0u8; 512]);
    assert_eq!(header.validate(), Err(Error::Missing));
}

#[test]
fn version() {
    let header = Header::from_block(block_with_words(&[(0, 2)]));
    assert_eq!(header.validate(), Err(Error::Version));
}

#[test]
fn checksum() {
    let header = Header::from_block(block_with_words(&[(0, 1), (127, 0xDEAD_BEEF)]));
    assert_eq!(header.validate(), Err(Error::Checksum));
}

#[test]
fn valid() {
    let header = Header::from_block(block_with_words(&[
        (0, 1),
        (1, 0x2A20_000A),
        (2, 0x3F10_0014),
        (3, 0x0110_0000),
        (127, 0x8EB3_FB6B),
    ]));
    header.validate().unwrap();

    let models = header.iter_models();
    let mut models = models.iter();
    assert_eq!(model(10, 2, 42), *models.next().unwrap());
    assert_eq!(model(20, 1, 63), *models.next().unwrap());
    assert!(models.next().is_none());
}

#[test]
fn error_kinds() {

    assert_eq!(FsError::<()>::SeekOutOfBounds.kind(), Some(ErrorKind::InvalidInput));
    assert_eq!(FsError::<()>::FileFull.kind(), Some(ErrorKind::Unsupported));
    assert_eq!(FsError::<()>::TooManyModels.kind(), Some(ErrorKind::InvalidData));
    assert_eq!(FsError::<()>::ModelNameOverflow.kind(), Some(ErrorKind::InvalidInput));
    assert_eq!(FsError::Io(3u8).kind(), None);
}

#[test]
fn buffer_states() {
    let mut state = State::empty();
    assert!(state.is_empty());
    assert_eq!(state.block(), None);
    assert!(!state.is_modified());
    state.set_block(5);
    assert_eq!(state.block(), Some(5));
    assert!(!state.is_modified());
    state.set_modified();
    assert!(state.is_modified());
    assert_eq!(state.block(), Some(5));
    state.clear_modified();
    assert_eq!(state.bits(), 5);
    // The block test compares the modified bit with the block number.
    assert!(!state.is_block(5));
    assert!(state.is_block(0));
    state.set_empty();
    assert!(state.is_empty());
}

#[test]
fn new_model_file_is_empty() {
    let mut fs = Filesystem::new_empty(vec![0u8; 512]);
    assert_eq!(fs.header_bytes()[0], 1);
    let mut names = vec![0xAAu8; 1024];
    let file = fs.new_model::<()>(&mut names, b"Test model").unwrap();
    assert_eq!(file.len(), 0);
    assert_eq!(model_name(&names, 0), b"Test model".to_vec());
    assert!(names[10..].iter().all(|&b| b == 0));
    assert!(fs.model(0).is_some());
    fs.delete_model(0);
    assert!(fs.model(0).is_none());
    assert!(matches!(
        fs.new_model::<()>(&mut names, b"a name that is far too long"),
        Err(vertx::filesystem::Error::ModelNameOverflow)
    ));
}

#[test]
fn file_cursor_bookkeeping() {
    let mut file = File::create(1, 2);
    assert_eq!(file.len(), 0);
    assert!(matches!(
        file.seek::<()>(SeekFrom::Start(1)),
        Err(vertx::filesystem::Error::SeekOutOfBounds)
    ));
    assert_eq!(file.stream_position(), 0);
    file.prepare_write::<()>(2).unwrap();
    assert_eq!(file.len(), 2);
    assert!(file.write_needs_read(2));
    let mut block = vec![0u8; 512];
    assert_eq!(file.write(&mut block, b"hi"), 2);
    assert_eq!(&block[..8], &[0, 0, 0, 0, b'h', b'i', 0, 0]);
    assert_eq!(file.flush_len(), Some(2));

    // Reading back what was written.
    assert_eq!(file.seek::<()>(SeekFrom::Start(0)).unwrap(), 0);
    let mut buf = vec![7u8; 5];
    assert_eq!(file.read(&mut buf, &block), 2);
    assert_eq!(buf, vec![b'h', b'i', 7, 7, 7]);
    assert_eq!(file.stream_position(), 2);

    let mut file = File::open(0, 1, 9);
    assert_eq!(file.len(), 9);
    let mut data = vec![0u8; 512];
    data[4..13].copy_from_slice(b"abcdefghi");
    let mut buf = vec![0u8; 16];
    assert_eq!(file.read(&mut buf, &data), 9);
    assert_eq!(&buf[..9], b"abcdefghi");
    assert_eq!(file.seek::<()>(SeekFrom::Start(0)).unwrap(), 0);
    file.truncate();
    assert_eq!(file.len(), 0);
    assert!(matches!(
        file.prepare_write::<()>(600),
        Err(vertx::filesystem::Error::FileFull)
    ));
}

#[test]
fn error_messages() {
    assert_eq!(FsError::<()>::SeekOutOfBounds.message(), Some("seek out of bounds"));
    assert_eq!(FsError::<()>::FileFull.message(), Some("file is full and cannot be reallocated"));
    assert_eq!(FsError::<()>::TooManyModels.message(), Some("no model ids left"));
    assert_eq!(FsError::<()>::ModelNameOverflow.message(), Some("model name is too long"));
    assert_eq!(FsError::Io(1u8).message(), None);
}

#[test]
fn model_table_fills_up() {
    let mut fs = Filesystem::new_empty(vec![0u8; 512]);
    let mut names = vec![0u8; 1024];
    for _ in 0..64 {
        fs.new_model::<()>(&mut names, b"m").unwrap();
    }
    assert!(matches!(
        fs.new_model::<()>(&mut names, b"m"),
        Err(vertx::filesystem::Error::TooManyModels)
    ));
}

#[test]
fn stored_data_reads_back() {

    let mut block = vec![0xEEu8; 16];
    write_slice(&mut block, b"config");
    assert_eq!(read_len(&block), 6);
    assert_eq!(read_slice(&block), b"config");
    assert_eq!(&block[..4], &[6, 0, 0, 0]);
    assert_eq!(&block[10..], &[0xEE; 6]);
}

fn state(block: u32, modified: bool) -> State {
    let mut s = State::empty();
    s.set_block(block);
    if modified {
        s.set_modified();
    }
    s
}

#[test]
fn flush_writes_each_modified_run_once() {
    let mut buffer = Buffer::new(4);
    buffer.set_state(0, state(5, true));
    buffer.set_state(1, state(9, false));
    buffer.set_state(2, state(7, true));

    assert_eq!(buffer.next_flush_chunk(0), Some((0, 1, 5)));
    buffer.clear_modified_run(0, 1);
    assert_eq!(buffer.state(0).bits(), 5);
    assert_eq!(buffer.next_flush_chunk(1), Some((2, 3, 7)));
    buffer.clear_modified_run(2, 3);
    assert_eq!(buffer.state(2).bits(), 7);
    assert_eq!(buffer.next_flush_chunk(3), None);
    assert_eq!(buffer.next_flush_chunk(0), None);
    assert!((0..4).all(|i| !buffer.state(i).is_modified()));
    // Empty buffers stay empty.
    assert!(buffer.state(3).is_empty());
}

#[test]
fn config_reads_back_what_was_written() {
    let fs = Filesystem::new_empty(vec![0; 512]);
    let mut block = vec![0xAA; 512];
    assert_eq!(fs.write_config(&mut block, b"hello"), 9);
    assert_eq!(&block[..9], &[5, 0, 0, 0, b'h', b'e', b'l', b'l', b'o']);
    assert_eq!(block[9], 0xAA);

    let mut buf = vec![0xFF; 8];
    assert_eq!(fs.read_config(&block, &mut buf), 5);
    assert_eq!(buf, b"hello\xFF\xFF\xFF".to_vec());

    let mut empty = Vec::new();
    assert_eq!(fs.write_config(&mut block, b""), 4);
    assert_eq!(fs.read_config(&block, &mut empty), 0);
    assert!(empty.is_empty());
}
