use miden_core::serde::{ByteReader, SliceReader};
use miden_project_assembly::codec::DecodeError;
use miden_project_assembly::provenance::{PackageBuildProvenance, PackageBuildSettings};
use miden_project_assembly::word::Word;

fn word(byte: u8) -> Word {
    Word::from_bytes([byte; 32]).unwrap()
}

fn path(dependency_hash: Word, build_settings: PackageBuildSettings) -> PackageBuildProvenance {
    PackageBuildProvenance::Path { source_hash: word(1), dependency_hash, build_settings }
}

fn git(dependency_hash: Word, build_settings: PackageBuildSettings) -> PackageBuildProvenance {
    PackageBuildProvenance::Git {
        repo: "https://example.com/dep.git".to_string(),
        resolved_revision: "abc".to_string(),
        dependency_hash,
        build_settings,
    }
}

fn encode(provenance: &PackageBuildProvenance) -> Vec<u8> {
    let mut bytes = Vec::new();
    provenance.write_into(&mut bytes);
    bytes
}

fn decode(bytes: &[u8]) -> Result<PackageBuildProvenance, DecodeError> {
    PackageBuildProvenance::read_from(&mut SliceReader::new(bytes))
}

const RELEASE: PackageBuildSettings =
    PackageBuildSettings { emit_debug_info: false, trim_paths: true };

#[test]
fn legacy_settings_emit_debug_info_and_keep_paths() {
    let settings = PackageBuildSettings::legacy();
    assert!(settings.emit_debug_info);
    assert!(!settings.trim_paths);
    assert!(settings.is_legacy());
    assert!(!RELEASE.is_legacy());
}

#[test]
fn records_are_read_back_as_written() {
    let empty = PackageBuildProvenance::empty_dependency_hash();
    let legacy = PackageBuildSettings::legacy();
    for (tag, record) in [
        path(empty, legacy),
        git(empty, legacy),
        path(word(2), legacy),
        git(word(2), legacy),
        path(word(2), RELEASE),
        git(word(2), RELEASE),
    ]
    .into_iter()
    .enumerate()
    {
        let mut bytes = encode(&record);
        assert_eq!(bytes[0] as usize, tag);
        bytes.push(77);
        let mut reader = SliceReader::new(&bytes);
        assert_eq!(PackageBuildProvenance::read_from(&mut reader).unwrap(), record);
        use_up(&mut reader);
    }
}

fn use_up(reader: &mut SliceReader<'_>) {
    assert_eq!(reader.read_u8().unwrap(), 77);
    assert!(!reader.has_more_bytes());
}

#[test]
fn encoding_of_a_git_record() {
    let record = PackageBuildProvenance::Git {
        repo: "ab".to_string(),
        resolved_revision: "c".to_string(),
        dependency_hash: PackageBuildProvenance::empty_dependency_hash(),
        build_settings: PackageBuildSettings::legacy(),
    };
    assert_eq!(encode(&record), vec![1, 5, b'a', b'b', 3, b'c']);
}

#[test]
fn encoding_of_a_long_string() {
    let repo = "x".repeat(300);
    let record = PackageBuildProvenance::Git {
        repo: repo.clone(),
        resolved_revision: String::new(),
        dependency_hash: PackageBuildProvenance::empty_dependency_hash(),
        build_settings: PackageBuildSettings::legacy(),
    };
    let bytes = encode(&record);
    // 300 * 4 + 2, in two bytes.
    assert_eq!(bytes[1..3], [0xb2, 0x04]);
    assert_eq!(bytes.len(), 1 + 2 + 300 + 1);
    assert_eq!(decode(&bytes).unwrap(), record);
}

#[test]
fn unreadable_records() {
    assert!(matches!(decode(&[]), Err(DecodeError::UnexpectedEof)));
    assert_eq!(decode(&[]).unwrap_err().message(), "unexpected end of file");
    assert_eq!(
        decode(&[6]).unwrap_err().message(),
        "invalid value: invalid project source provenance tag '6'"
    );
    let mut bytes = vec![0];
    bytes.extend([0xff; 32]);
    assert_eq!(
        decode(&bytes).unwrap_err().message(),
        "invalid value: value not in the appropriate range"
    );
    let mut bytes = encode(&path(word(2), RELEASE));
    let last = bytes.len() - 1;
    bytes[last] = 9;
    assert_eq!(decode(&bytes).unwrap_err().message(), "invalid value: 9 is not a boolean value");
    assert_eq!(
        decode(&[1, 3, 0xff]).unwrap_err().message(),
        format!("invalid value: {}", String::from_utf8(vec![0xff]).unwrap_err())
    );
}

#[test]
fn descriptions() {
    let empty = PackageBuildProvenance::empty_dependency_hash();
    let legacy = PackageBuildSettings::legacy();
    let one = format!("0x{}", "01".repeat(32));
    let two = format!("0x{}", "02".repeat(32));
    let git_source = "https://example.com/dep.git@abc";
    assert_eq!(path(empty, legacy).describe(), format!("path({one})"));
    assert_eq!(path(word(2), legacy).describe(), format!("path({one}, deps={two})"));
    assert_eq!(
        path(word(2), RELEASE).describe(),
        format!("path({one}, deps={two}, debug=false, trim_paths=true)")
    );
    assert_eq!(git(empty, legacy).describe(), format!("git({git_source})"));
    assert_eq!(git(word(2), legacy).describe(), format!("git({git_source}, deps={two})"));
    assert_eq!(
        git(word(2), RELEASE).describe(),
        format!("git({git_source}, deps={two}, debug=false, trim_paths=true)")
    );
}

#[test]
fn empty_dependency_hash_is_the_digest_of_the_empty_text() {
    assert_eq!(
        PackageBuildProvenance::empty_dependency_hash().as_bytes(),
        miden_core::utils::hash_string_to_word("").as_bytes()
    );
}

#[test]
fn words_have_elements_of_the_field() {
    assert!(Word::from_bytes([0xff; 32]).is_none());
    let mut bytes = [0; 32];
    bytes[24] = 1;
    bytes[28..].copy_from_slice(&[0xff; 4]);
    assert!(Word::from_bytes(bytes).is_none());
    bytes[24] = 0;
    assert_eq!(Word::from_bytes(bytes).unwrap().as_bytes(), bytes);
}
