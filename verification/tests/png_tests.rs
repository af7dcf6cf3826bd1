use pnghider::chunk::Chunk;
use pnghider::chunk::FormatError;
use pnghider::chunk_type::ChunkType;
use pnghider::chunk_type::ValidationError;
use pnghider::png::LookupError;
use pnghider::png::Png;

const SIGNATURE: [u8; 8] = [137, 80, 78, 71, 13, 10, 26, 10];

fn chunk_from(tag: &str, message: &str) -> Chunk {
    Chunk::new(
        ChunkType::from_str(tag).unwrap(),
        message.as_bytes().to_vec(),
    )
}

fn testing_png() -> Png {
    let chunks = vec![
        chunk_from("FrSt", "I am the first chunk"),
        chunk_from("miDl", "I am another chunk"),
        chunk_from("LASt", "I am the last chunk"),
    ];
    Png::from_chunks(chunks)
}

#[test]
fn test_png_serialize_starts_with_signature() {
    let png = testing_png();
    let bytes = png.as_bytes();
    assert_eq!(&bytes[..8], &SIGNATURE);
}

#[test]
fn test_png_round_trip() {
    let png = testing_png();
    let bytes = png.as_bytes();
    let reparsed = Png::try_from(bytes.as_ref()).unwrap();
    assert_eq!(reparsed.as_bytes(), bytes);
    assert_eq!(reparsed.chunks().len(), 3);
}

#[test]
fn test_png_round_trip_empty() {
    let png = Png::from_chunks(Vec::new());
    let bytes = png.as_bytes();
    assert_eq!(bytes, SIGNATURE.to_vec());
    let reparsed = Png::try_from(bytes.as_ref()).unwrap();
    assert_eq!(reparsed.chunks().len(), 0);
}

#[test]
fn test_png_parse_raw_buffer() {
    let mut buffer: Vec<u8> = SIGNATURE.to_vec();
    buffer.extend_from_slice(&chunk_from("RuSt", "hidden").as_bytes());
    buffer.extend_from_slice(&chunk_from("oTHr", "visible").as_bytes());
    let png = Png::try_from(buffer.as_ref()).unwrap();
    assert_eq!(png.chunks().len(), 2);
    assert_eq!(png.as_bytes(), buffer);
}

#[test]
fn test_png_invalid_signature() {
    let buffer: Vec<u8> = b"definitely not a png".to_vec();
    assert!(matches!(
        Png::try_from(buffer.as_ref()),
        Err(FormatError::InvalidSignature)
    ));
    let short: Vec<u8> = vec![137, 80];
    assert!(matches!(
        Png::try_from(short.as_ref()),
        Err(FormatError::InvalidSignature)
    ));
}

#[test]
fn test_png_corrupt_record_aborts_parse() {
    let png = testing_png();
    let mut bytes = png.as_bytes();
    let n = bytes.len();
    // Flip a bit in the last record's checksum field.
    bytes[n - 1] ^= 1;
    assert!(matches!(
        Png::try_from(bytes.as_ref()),
        Err(FormatError::ChecksumMismatch)
    ));
}

#[test]
fn test_png_truncated_record_aborts_parse() {
    let png = testing_png();
    let bytes = png.as_bytes();
    let n = bytes.len();
    assert!(matches!(
        Png::try_from(&bytes[..n - 2]),
        Err(FormatError::TruncatedChecksum)
    ));
}

#[test]
fn test_append_and_find() {
    let mut png = testing_png();
    png.append_chunk(chunk_from("RuSt", "Message"));
    let found = png.chunk_by_type("RuSt").unwrap();
    assert_eq!(found.data_as_string().unwrap(), String::from("Message"));
    let removed = png.remove_chunk("RuSt").unwrap();
    assert_eq!(removed.data_as_string().unwrap(), String::from("Message"));
    assert!(matches!(
        png.chunk_by_type("RuSt"),
        Err(LookupError::NotFound)
    ));
    assert_eq!(png.chunks().len(), 3);
}

#[test]
fn test_first_match_policy() {
    let mut png = Png::from_chunks(Vec::new());
    png.append_chunk(chunk_from("abCd", "first payload"));
    png.append_chunk(chunk_from("abCd", "second payload"));
    let found = png.chunk_by_type("abCd").unwrap();
    assert_eq!(
        found.data_as_string().unwrap(),
        String::from("first payload")
    );
    let removed = png.remove_chunk("abCd").unwrap();
    assert_eq!(
        removed.data_as_string().unwrap(),
        String::from("first payload")
    );
    let second = png.chunk_by_type("abCd").unwrap();
    assert_eq!(
        second.data_as_string().unwrap(),
        String::from("second payload")
    );
    assert_eq!(png.chunks().len(), 1);
}

#[test]
fn test_lookup_bad_tag_text() {
    let png = testing_png();
    assert!(matches!(
        png.chunk_by_type("Ru1t"),
        Err(LookupError::InvalidTag(ValidationError::NotAlphabetic))
    ));
    assert!(matches!(
        png.chunk_by_type("RuSty"),
        Err(LookupError::InvalidTag(ValidationError::WrongLength))
    ));
    let mut png = png;
    assert!(matches!(
        png.remove_chunk("Ru1t"),
        Err(LookupError::InvalidTag(ValidationError::NotAlphabetic))
    ));
    assert!(matches!(
        png.remove_chunk("none"),
        Err(LookupError::NotFound)
    ));
    assert_eq!(png.chunks().len(), 3);
}

#[test]
fn test_order_preserved_after_removal() {
    let mut png = testing_png();
    png.remove_chunk("miDl").unwrap();
    let bytes = png.as_bytes();
    let expected = {
        let mut b: Vec<u8> = SIGNATURE.to_vec();
        b.extend_from_slice(&chunk_from("FrSt", "I am the first chunk").as_bytes());
        b.extend_from_slice(&chunk_from("LASt", "I am the last chunk").as_bytes());
        b
    };
    assert_eq!(bytes, expected);
}

#[test]
fn test_secret_message_scenario() {
    // Embed a secret message, serialize, reread it from the raw bytes.
    let mut png = testing_png();
    let message = "This is where your secret message will be!";
    png.append_chunk(chunk_from("RuSt", message));
    let appended = png.chunk_by_type("RuSt").unwrap();
    assert_eq!(appended.length(), 42);
    assert_eq!(appended.crc(), 2882656334);
    let bytes = png.as_bytes();
    let reread = Png::try_from(bytes.as_ref()).unwrap();
    let secret = reread.chunk_by_type("RuSt").unwrap();
    assert_eq!(secret.data_as_string().unwrap(), String::from(message));
}
