use seanvim::connect::ConnectFuture;
use seanvim::progress::Progress;
use seanvim::reads::{copy_into_from_vec_buffs, ReadChunk, UvError};
use seanvim::tcp::{MyTcp, TcpError};
use std::collections::VecDeque;

type Item = Result<ReadChunk, UvError<u8>>;
type Tcp = MyTcp<u32, u8>;

fn chunk(bytes: &[u8]) -> Item {
    Ok(ReadChunk::new(bytes.to_vec()))
}

fn queue(items: Vec<Item>) -> VecDeque<Item> {
    items.into_iter().collect()
}

fn front(queue: &VecDeque<Item>) -> (usize, usize) {
    match queue.front() {
        Some(Ok(chunk)) => (chunk.start, chunk.len),
        _ => panic!("no chunk in front"),
    }
}

#[test]
fn copy_exact_fit_discards_chunk() {
    let mut from = queue(vec![chunk(&[1, 2, 3]), chunk(&[4])]);
    let mut into = [0u8; 3];
    assert_eq!(copy_into_from_vec_buffs(&mut into, &mut from), Ok(3));
    assert_eq!(into, [1, 2, 3]);
    assert_eq!(from.len(), 1);
    assert_eq!(front(&from), (0, 1));
}

#[test]
fn copy_larger_chunk_is_read_in_parts() {
    let mut from = queue(vec![chunk(&[1, 2, 3, 4, 5])]);
    let mut into = [0u8; 2];
    assert_eq!(copy_into_from_vec_buffs(&mut into, &mut from), Ok(2));
    assert_eq!(into, [1, 2]);
    assert_eq!(front(&from), (2, 5));
    assert_eq!(copy_into_from_vec_buffs(&mut into, &mut from), Ok(2));
    assert_eq!(into, [3, 4]);
    assert_eq!(front(&from), (4, 5));
    assert_eq!(copy_into_from_vec_buffs(&mut into, &mut from), Ok(1));
    assert_eq!(into, [5, 4]);
    assert!(from.is_empty());
}

#[test]
fn copy_smaller_chunks_fill_the_buffer() {
    let mut from = queue(vec![chunk(&[1, 2]), chunk(&[3]), chunk(&[]), chunk(&[4, 5, 6])]);
    let mut into = [9u8; 5];
    assert_eq!(copy_into_from_vec_buffs(&mut into, &mut from), Ok(5));
    assert_eq!(into, [1, 2, 3, 4, 5]);
    assert_eq!(front(&from), (2, 3));
}

#[test]
fn copy_leaves_rest_of_buffer_alone() {
    let mut from = queue(vec![chunk(&[1, 2])]);
    let mut into = [9u8; 4];
    assert_eq!(copy_into_from_vec_buffs(&mut into, &mut from), Ok(2));
    assert_eq!(into, [1, 2, 9, 9]);
    assert!(from.is_empty());
}

#[test]
fn copy_starts_at_the_unread_part() {
    let half_read = ReadChunk { start: 2, len: 4, bytes: vec![1, 2, 3, 4, 5] };
    let mut from = queue(vec![Ok(half_read)]);
    let mut into = [0u8; 8];
    assert_eq!(copy_into_from_vec_buffs(&mut into, &mut from), Ok(2));
    assert_eq!(&into[..2], &[3, 4]);
}

#[test]
fn copy_from_nothing_is_zero() {
    let mut from = queue(vec![]);
    let mut into = [7u8; 2];
    assert_eq!(copy_into_from_vec_buffs(&mut into, &mut from), Ok(0));
    assert_eq!(into, [7, 7]);
}

#[test]
fn copy_into_no_room() {
    let mut from = queue(vec![chunk(&[]), chunk(&[1])]);
    let mut into: [u8; 0] = [];
    assert_eq!(copy_into_from_vec_buffs(&mut into, &mut from), Ok(0));
    assert_eq!(from.len(), 1);
    assert_eq!(copy_into_from_vec_buffs(&mut into, &mut from), Ok(0));
    assert_eq!(front(&from), (0, 1));
}

#[test]
fn copy_reports_error_once_after_the_bytes() {
    let mut from = queue(vec![chunk(&[1]), Err(UvError::Other(5)), chunk(&[2])]);
    let mut into = [0u8; 4];
    assert_eq!(copy_into_from_vec_buffs(&mut into, &mut from), Ok(1));
    assert_eq!(copy_into_from_vec_buffs(&mut into, &mut from), Err(UvError::Other(5)));
    assert_eq!(copy_into_from_vec_buffs(&mut into, &mut from), Ok(1));
    assert_eq!(into[0], 2);
}

#[test]
fn copy_end_of_stream_stays() {
    let mut from = queue(vec![chunk(&[1]), Err(UvError::Eof), chunk(&[2])]);
    let mut into = [0u8; 4];
    assert_eq!(copy_into_from_vec_buffs(&mut into, &mut from), Ok(1));
    assert_eq!(copy_into_from_vec_buffs(&mut into, &mut from), Ok(0));
    assert_eq!(copy_into_from_vec_buffs(&mut into, &mut from), Ok(0));
    assert_eq!(from.len(), 2);
}

#[test]
fn copy_reports_fault() {
    let mut from = queue(vec![Err(UvError::Fault)]);
    let mut into = [0u8; 1];
    assert_eq!(copy_into_from_vec_buffs(&mut into, &mut from), Err(UvError::Fault));
    assert!(from.is_empty());
}

#[test]
fn reads_compose() {
    let items = || queue(vec![chunk(&[1, 2, 3]), chunk(&[4, 5]), chunk(&[6, 7, 8])]);
    let mut one = items();
    let mut whole = [0u8; 6];
    assert_eq!(copy_into_from_vec_buffs(&mut whole, &mut one), Ok(6));
    let mut two = items();
    let mut first = [0u8; 4];
    let mut second = [0u8; 2];
    assert_eq!(copy_into_from_vec_buffs(&mut first, &mut two), Ok(4));
    assert_eq!(copy_into_from_vec_buffs(&mut second, &mut two), Ok(2));
    assert_eq!(&whole[..4], &first);
    assert_eq!(&whole[4..], &second);
    assert_eq!(front(&one), front(&two));
}

#[test]
fn reading_starts_once() {
    let mut tcp = Tcp::new();
    assert!(tcp.start_reading());
    assert!(!tcp.start_reading());
}

#[test]
fn failed_start_is_reported_and_leaves_no_reader() {
    let mut tcp = Tcp::new();
    let mut buf = [3u8; 2];
    assert!(tcp.start_reading());
    assert_eq!(
        tcp.poll_read(Err(UvError::Other(9)), 1, &mut buf),
        Progress::Ready(Err(TcpError::Uv(UvError::Other(9))))
    );
    assert_eq!(buf, [3, 3]);
    assert_eq!(tcp.poll_read(Ok(()), 1, &mut buf), Progress::Pending);
}

#[test]
fn reader_waits_and_is_woken_by_the_arrival() {
    let mut tcp = Tcp::new();
    assert!(tcp.start_reading());
    let mut buf = [0u8; 4];
    assert_eq!(tcp.poll_read(Ok(()), 17, &mut buf), Progress::Pending);
    assert_eq!(
        tcp.poll_read(Ok(()), 18, &mut buf),
        Progress::Ready(Err(TcpError::AlreadyExists))
    );
    assert_eq!(tcp.on_read(Ok(vec![1, 2])), Some(17));
    assert_eq!(tcp.on_read(Ok(vec![3, 4, 5])), None);
    assert_eq!(tcp.poll_read(Ok(()), 17, &mut buf), Progress::Ready(Ok(4)));
    assert_eq!(buf, [1, 2, 3, 4]);
    assert_eq!(tcp.poll_read(Ok(()), 17, &mut buf), Progress::Ready(Ok(1)));
    assert_eq!(buf[0], 5);
    assert_eq!(tcp.poll_read(Ok(()), 19, &mut buf), Progress::Pending);
}

#[test]
fn read_errors_wake_and_are_reported() {
    let mut tcp = Tcp::new();
    assert!(tcp.start_reading());
    let mut buf = [0u8; 4];
    assert_eq!(tcp.poll_read(Ok(()), 2, &mut buf), Progress::Pending);
    assert_eq!(tcp.on_read(Err(UvError::Other(4))), Some(2));
    assert_eq!(
        tcp.poll_read(Ok(()), 2, &mut buf),
        Progress::Ready(Err(TcpError::Uv(UvError::Other(4))))
    );
    assert_eq!(tcp.on_read(Err(UvError::Eof)), None);
    assert_eq!(tcp.poll_read(Ok(()), 2, &mut buf), Progress::Ready(Ok(0)));
    assert_eq!(tcp.poll_read(Ok(()), 2, &mut buf), Progress::Ready(Ok(0)));
}

#[test]
fn stream_comes_out_in_order() {
    let mut tcp = Tcp::new();
    assert!(tcp.start_reading());
    let mut out: Vec<u8> = Vec::new();
    let mut next = 0u8;
    for round in 0..20usize {
        let arriving: Vec<u8> = (0..(round % 4)).map(|_| { next += 1; next }).collect();
        tcp.on_read(Ok(arriving));
        let mut buf = vec![0u8; round % 3 + 1];
        if let Progress::Ready(Ok(n)) = tcp.poll_read(Ok(()), 0, &mut buf) {
            out.extend_from_slice(&buf[..n]);
        }
    }
    let mut rest = [0u8; 64];
    if let Progress::Ready(Ok(n)) = tcp.poll_read(Ok(()), 0, &mut rest) {
        out.extend_from_slice(&rest[..n]);
    }
    let expected: Vec<u8> = (1..=next).collect();
    assert_eq!(out, expected);
}

#[test]
fn bytes_and_errors_come_out_in_order() {
    let mut tcp = Tcp::new();
    assert!(tcp.start_reading());
    tcp.on_read(Ok(vec![1, 2, 3]));
    tcp.on_read(Err(UvError::Other(4)));
    tcp.on_read(Ok(vec![5]));
    tcp.on_read(Err(UvError::Fault));
    tcp.on_read(Err(UvError::Eof));
    tcp.on_read(Ok(vec![9]));
    let mut bytes: Vec<u8> = Vec::new();
    let mut errors = Vec::new();
    for _ in 0..8 {
        let mut buf = [0u8; 2];
        match tcp.poll_read(Ok(()), 0, &mut buf) {
            Progress::Ready(Ok(n)) => bytes.extend_from_slice(&buf[..n]),
            Progress::Ready(Err(error)) => errors.push(error),
            Progress::Pending => panic!("something waits"),
        }
    }
    assert_eq!(bytes, [1, 2, 3, 5]);
    assert_eq!(errors, [TcpError::Uv(UvError::Other(4)), TcpError::Uv(UvError::Fault)]);
}

#[test]
fn flush_waits_for_writes_that_are_queued_later() {
    let mut tcp = Tcp::new();
    tcp.begin_write();
    tcp.begin_write();
    assert_eq!(tcp.poll_flush(6), Progress::Pending);
    assert_eq!(tcp.on_written(), None);
    tcp.begin_write();
    tcp.begin_write();
    assert_eq!(tcp.on_written(), None);
    assert_eq!(tcp.on_written(), None);
    assert_eq!(tcp.on_written(), Some(6));
    assert_eq!(tcp.on_written(), None);
    assert_eq!(tcp.poll_flush(6), Progress::Ready(Ok(())));
}

#[test]
fn writes_report_the_whole_buffer_or_the_error() {
    let mut tcp = Tcp::new();
    tcp.begin_write();
    assert_eq!(tcp.poll_write(b"hello", Ok(())), Progress::Ready(Ok(5)));
    assert_eq!(
        tcp.poll_write(b"hello", Err(UvError::Other(3))),
        Progress::Ready(Err(TcpError::Uv(UvError::Other(3))))
    );
}

#[test]
fn flush_is_woken_by_the_last_write() {
    let mut tcp = Tcp::new();
    assert_eq!(tcp.poll_flush(1), Progress::Ready(Ok(())));
    tcp.begin_write();
    tcp.begin_write();
    assert_eq!(tcp.poll_flush(1), Progress::Pending);
    tcp.begin_write();
    assert_eq!(tcp.poll_flush(2), Progress::Pending);
    assert_eq!(tcp.on_written(), None);
    assert_eq!(tcp.on_written(), None);
    assert_eq!(tcp.on_written(), Some(2));
    assert_eq!(tcp.poll_flush(2), Progress::Ready(Ok(())));
    assert_eq!(tcp.on_written(), None);
}

#[test]
fn close_waits_once() {
    let mut tcp = Tcp::new();
    assert_eq!(tcp.poll_close(5), Progress::Pending);
    assert_eq!(tcp.poll_close(6), Progress::Ready(Err(TcpError::AlreadyExists)));
    assert_eq!(tcp.on_closed(), Some(5));
    assert_eq!(tcp.on_closed(), None);
    assert_eq!(tcp.poll_close(6), Progress::Pending);
}

#[test]
fn refused_connect_is_a_fault() {
    let mut tcp = Tcp::new();
    assert_eq!(tcp.connect(Ok::<(), String>(())), Ok(()));
    assert_eq!(tcp.connect(Err("refused")), Err(UvError::Fault));
    assert_eq!(tcp.connect(Err(7)), Err(UvError::Fault));
}

#[test]
fn connect_future_delivers_once() {
    let mut future: ConnectFuture<u32, u8> = ConnectFuture::new();
    assert_eq!(future.complete(Ok(1)), None);
    assert_eq!(future.poll(4), Progress::Ready(Ok(1)));
    assert_eq!(future.poll(4), Progress::Pending);
    assert_eq!(future.complete(Err(UvError::Other(2))), Some(&4));
    assert_eq!(future.poll(5), Progress::Ready(Err(UvError::Other(2))));
    assert_eq!(future.complete(Ok(3)), Some(&4));
}
