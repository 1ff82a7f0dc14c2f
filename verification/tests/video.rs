//! Chunking, reassembly, the byte-stream splitter and the video queues.

use roboprotocol::channel_a::{
    pack_pixels, with_start_code, ChannelAReceiver, NalQueue, VideoEncoder,
};
use roboprotocol::reassembly::NalReassembler;
use roboprotocol::video::{
    chunk_nal, nal_is_critical, AnnexBSplitter, ChunkHeader, MAX_CHUNK_PAYLOAD,
};

#[test]
fn nal_is_critical_identifies_sps_pps_idr_only() {
    assert!(nal_is_critical(&[0x67])); // SPS (type 7)
    assert!(nal_is_critical(&[0x68])); // PPS (type 8)
    assert!(nal_is_critical(&[0x65])); // IDR slice (type 5)
    assert!(!nal_is_critical(&[0x61])); // non-IDR slice (type 1)
    assert!(!nal_is_critical(&[0x06])); // SEI (type 6)
    assert!(!nal_is_critical(&[]));
}

#[test]
fn chunk_header_round_trips() {
    let h = ChunkHeader { nal_id: 0xDEADBEEF, chunk_index: 7, is_last: true };
    let mut buf = Vec::new();
    h.encode(&mut buf);
    buf.extend_from_slice(b"payload");
    let (decoded, rest) = ChunkHeader::decode(&buf).unwrap();
    assert_eq!(decoded, h);
    assert_eq!(rest, b"payload");
}

#[test]
fn small_nal_produces_one_chunk() {
    let nal = vec![0xAB; 50];
    let chunks = chunk_nal(1, &nal);
    assert_eq!(chunks.len(), 1);
    let (h, payload) = ChunkHeader::decode(&chunks[0]).unwrap();
    assert_eq!(h, ChunkHeader { nal_id: 1, chunk_index: 0, is_last: true });
    assert_eq!(payload, &nal[..]);
}

#[test]
fn large_nal_splits_across_multiple_chunks_in_order() {
    let nal: Vec<u8> = (0..3000u32).map(|i| (i % 256) as u8).collect();
    let chunks = chunk_nal(9, &nal);
    assert!(chunks.len() > 1);

    let mut reassembler = NalReassembler::new(16);
    let mut result = None;
    for chunk in &chunks {
        let (h, payload) = ChunkHeader::decode(chunk).unwrap();
        assert_eq!(h.nal_id, 9);
        result = reassembler.on_chunk(h, payload).or(result);
    }
    assert_eq!(result.unwrap(), nal);
}

#[test]
fn chunks_may_arrive_in_any_order_and_twice() {
    let nal: Vec<u8> = (0..3000u32).map(|i| (i % 251) as u8).collect();
    let chunks = chunk_nal(4, &nal);
    assert_eq!(chunks.len(), 3);
    let mut reassembler = NalReassembler::new(16);
    for index in [2usize, 0, 2] {
        let (h, payload) = ChunkHeader::decode(&chunks[index]).unwrap();
        assert!(reassembler.on_chunk(h, payload).is_none());
    }
    let (h, payload) = ChunkHeader::decode(&chunks[1]).unwrap();
    assert_eq!(reassembler.on_chunk(h, payload), Some(nal));
    assert_eq!(reassembler.pending_count(), 0);
}

#[test]
fn splitter_finds_nal_units_delimited_by_3_and_4_byte_start_codes() {
    let mut stream = Vec::new();
    stream.extend_from_slice(&[0, 0, 0, 1]); // 4-byte start code
    stream.extend_from_slice(b"SPS_DATA");
    stream.extend_from_slice(&[0, 0, 1]); // 3-byte start code
    stream.extend_from_slice(b"PPS");
    stream.extend_from_slice(&[0, 0, 0, 1]);
    stream.extend_from_slice(b"SLICE");

    let mut splitter = AnnexBSplitter::new();
    // In two pushes, so that the buffer outlives a call.
    let mid = stream.len() / 2;
    let mut nals = splitter.push(&stream[..mid]);
    nals.extend(splitter.push(&stream[mid..]));

    assert_eq!(nals, vec![b"SPS_DATA".to_vec(), b"PPS".to_vec()]);
    // The last one could still be growing.
}

#[test]
fn reassembler_evicts_oldest_incomplete_nal_once_over_capacity() {
    let mut reassembler = NalReassembler::new(2);
    // Three NALs, each without its final chunk.
    for nal_id in 0..3u32 {
        let h = ChunkHeader { nal_id, chunk_index: 0, is_last: false };
        assert!(reassembler.on_chunk(h, b"partial").is_none());
    }
    assert!(reassembler.pending_count() <= 2, "must bound memory under sustained loss");
}

#[test]
fn an_empty_nal_has_no_chunks() {
    assert!(chunk_nal(3, &[]).is_empty());
    assert_eq!(chunk_nal(3, &vec![0; MAX_CHUNK_PAYLOAD + 1]).len(), 2);
    assert!(ChunkHeader::decode(&[1, 2, 3]).is_none());
}

#[test]
fn the_robot_sends_what_the_operator_receives() {
    let mut stream = vec![0, 0, 0, 1, 0x67, 1, 2, 3, 0, 0, 1, 0x61];
    stream.extend(vec![0x55; 2500]);
    stream.extend([0, 0, 0, 1, 0x65, 9]);
    let mut encoder = VideoEncoder::new();
    let sent = encoder.push(&stream);
    assert_eq!(sent.len(), 2);
    assert_eq!((sent[0].nal_id, sent[0].is_critical), (0, true));
    assert_eq!((sent[1].nal_id, sent[1].is_critical), (1, false));

    let mut receiver = ChannelAReceiver::new();
    let mut received = vec![];
    for nal in &sent {
        for chunk in chunk_nal(nal.nal_id, &nal.nal) {
            received.extend(receiver.on_datagram(&chunk));
        }
    }
    assert_eq!(received.len(), 2);
    assert_eq!(received[0], with_start_code(&[0x67, 1, 2, 3]));
    assert_eq!(received[1].len(), 4 + 1 + 2500);
    assert!(receiver.on_datagram(&[1]).is_none());
}

#[test]
fn only_what_is_not_critical_is_overtaken() {
    let mut queue = NalQueue::new();
    queue.send("parameters", true);
    queue.send("old picture", false);
    queue.send("new picture", false);
    queue.send("key picture", true);
    assert_eq!(queue.recv(), Some("parameters"));
    assert_eq!(queue.recv(), Some("key picture"));
    assert_eq!(queue.recv(), Some("new picture"));
    assert_eq!(queue.recv(), None);
}

#[test]
fn pixels_are_packed_red_green_blue() {
    assert_eq!(pack_pixels(&[1, 2, 3, 0xFF, 0, 0x10]), vec![0x01_02_03, 0xFF_00_10]);
    assert_eq!(pack_pixels(&[1, 2]), Vec::<u32>::new());
}
