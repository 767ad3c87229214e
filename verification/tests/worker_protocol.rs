use inkpdf::worker_protocol::{
    blob_len, decode_message, encode_message, export_outcome, header_len, ExportRequest, ExportResponse,
    FrameError, MAX_MESSAGE_BYTES,
};

#[test]
fn message_round_trips_and_reports_its_length() {
    let header = br#""Export""#;
    let blob = [1u8, 2, 3, 4, 5];
    let mut bytes = encode_message(header, &blob);
    assert_eq!(bytes.len(), 4 + header.len() + 8 + blob.len());
    assert_eq!(&bytes[..4], &(header.len() as u32).to_le_bytes());
    bytes.extend_from_slice(b"next message");
    let (h, b, used) = decode_message(&bytes).unwrap();
    assert_eq!(h, header.to_vec());
    assert_eq!(b, blob.to_vec());
    assert_eq!(used, 4 + header.len() + 8 + blob.len());
}

#[test]
fn empty_blob_round_trips() {
    let bytes = encode_message(b"{}", &[]);
    assert_eq!(decode_message(&bytes).unwrap(), (b"{}".to_vec(), vec![], 14));
}

#[test]
fn truncated_messages_are_refused() {
    let bytes = encode_message(b"abc", b"xyz");
    assert_eq!(decode_message(&bytes[..3]), Err(FrameError::Truncated));
    assert_eq!(decode_message(&bytes[..10]), Err(FrameError::Truncated));
    assert_eq!(decode_message(&bytes[..bytes.len() - 1]), Err(FrameError::Truncated));
}

#[test]
fn oversized_lengths_are_refused() {
    let huge = (MAX_MESSAGE_BYTES + 1) as u32;
    let mut bytes = huge.to_le_bytes().to_vec();
    bytes.extend_from_slice(&[0u8; 16]);
    assert_eq!(decode_message(&bytes), Err(FrameError::HeaderTooLarge(MAX_MESSAGE_BYTES + 1)));
    assert_eq!(header_len(&huge.to_le_bytes()), Err(FrameError::HeaderTooLarge(MAX_MESSAGE_BYTES + 1)));

    let mut bytes = 0u32.to_le_bytes().to_vec();
    bytes.extend_from_slice(&(MAX_MESSAGE_BYTES + 1).to_le_bytes());
    assert_eq!(decode_message(&bytes), Err(FrameError::BlobTooLarge(MAX_MESSAGE_BYTES + 1)));
    assert_eq!(blob_len(&u64::MAX.to_le_bytes()), Err(FrameError::BlobTooLarge(u64::MAX)));
}

#[test]
fn length_prefixes_are_little_endian() {
    assert_eq!(header_len(&[0x10, 0x02, 0, 0]), Ok(0x210));
    assert_eq!(blob_len(&[1, 0, 0, 0, 0, 0, 0, 0]), Ok(1));
    assert_eq!(blob_len(&[0, 0, 0, 0x40, 0, 0, 0, 0]), Ok(MAX_MESSAGE_BYTES as usize));
}

#[test]
fn export_outcome_reports_the_worker_message() {
    assert_eq!(export_outcome(ExportResponse::Done), Ok(()));
    assert_eq!(export_outcome(ExportResponse::Error("disk full".to_string())), Err("disk full".to_string()));
    assert_eq!(ExportRequest::Export, ExportRequest::Export);
}
