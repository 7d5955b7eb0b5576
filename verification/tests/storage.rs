use sharesphere::file_id::FileId;
use sharesphere::file_manager::chunker::{split_into_chunks, ChunkMetadata};
use sharesphere::file_manager::storage::{
    chunk_file_name, chunk_name_bytes, insert_ascending, list_chunks, parse_chunk_file_name,
    storage_dir_name,
};
use std::collections::HashMap;

fn save(dir: &mut HashMap<String, Vec<u8>>, metadata: &ChunkMetadata, data: &[u8]) {
    dir.insert(chunk_file_name(metadata.chunk_index), data.to_vec());
}

fn get(dir: &HashMap<String, Vec<u8>>, chunk_index: usize) -> Option<Vec<u8>> {
    dir.get(&chunk_file_name(chunk_index)).cloned()
}

fn names(dir: &HashMap<String, Vec<u8>>) -> Vec<String> {
    dir.keys().cloned().collect()
}

#[test]
fn test_save_and_get_chunk() {
    let file_id = FileId::generate();
    let mut storage_dir = HashMap::new();

    let metadata = ChunkMetadata::new(file_id, 0, 5, 1);
    let data = b"Hello";

    save(&mut storage_dir, &metadata, data);

    let retrieved_data = get(&storage_dir, 0).unwrap();
    assert_eq!(retrieved_data, data);
}

#[test]
fn test_list_chunks() {
    let file_id = FileId::generate();
    let mut storage_dir = HashMap::new();

    for i in 0..5 {
        let metadata = ChunkMetadata::new(file_id, i, 5, 5);
        let data = format!("Chunk{}", i).into_bytes();
        save(&mut storage_dir, &metadata, &data);
    }

    let chunks = list_chunks(&names(&storage_dir));
    assert_eq!(chunks, vec![0, 1, 2, 3, 4]);
}

#[test]
fn test_split_and_save_chunks() {
    let mut storage_dir = HashMap::new();
    let content = b"HelloShareSphereFileChunkingTest!";
    let chunk_size = 5;

    let file_id = FileId::generate();
    let chunks = split_into_chunks(file_id, content, chunk_size);

    for (metadata, data) in &chunks {
        save(&mut storage_dir, metadata, data);
    }

    let chunk_indices = list_chunks(&names(&storage_dir));
    assert_eq!(chunk_indices.len(), chunks.len());

    for (metadata, data) in &chunks {
        let retrieved_data = get(&storage_dir, metadata.chunk_index).unwrap();
        assert_eq!(&retrieved_data, data);
    }
}

#[test]
fn chunk_files_are_named_by_index() {
    assert_eq!(chunk_file_name(0), "chunk_0.bin");
    assert_eq!(chunk_file_name(7), "chunk_7.bin");
    assert_eq!(chunk_file_name(1234), "chunk_1234.bin");
    assert_eq!(chunk_name_bytes(42), b"chunk_42.bin".to_vec());
    assert_eq!(
        chunk_file_name(usize::MAX),
        format!("chunk_{}.bin", usize::MAX)
    );
}

#[test]
fn chunk_file_names_read_back() {
    for index in [0usize, 1, 9, 10, 99, 100, 65535, usize::MAX] {
        assert_eq!(parse_chunk_file_name(&chunk_file_name(index)), Some(index));
    }
}

#[test]
fn names_that_are_no_chunk_are_refused() {
    for name in [
        "",
        "chunk_.bin",
        "chunk_1",
        "chunk_1.bi",
        "chunk_1.bin.tmp",
        "Chunk_1.bin",
        "chunk1.bin",
        "chunk_-1.bin",
        "chunk_1a.bin",
        "chunk_ 1.bin",
        "chunk_+.bin",
        "chunk_99999999999999999999999999.bin",
        "notes.txt",
        "chunk_bin",
        "chunk.bin",
    ] {
        assert_eq!(parse_chunk_file_name(name), None, "{}", name);
    }
}

#[test]
fn decimal_fields_may_have_a_sign_and_leading_zeros() {
    assert_eq!(parse_chunk_file_name("chunk_+5.bin"), Some(5));
    assert_eq!(parse_chunk_file_name("chunk_007.bin"), Some(7));
    assert_eq!(
        parse_chunk_file_name(&format!("chunk_{}.bin", usize::MAX)),
        Some(usize::MAX)
    );
}

#[test]
fn listing_is_ascending_whatever_the_order_of_names() {
    let names: Vec<String> = ["chunk_10.bin", "chunk_2.bin", "readme", "chunk_0.bin", "chunk_1.bin"]
        .iter()
        .map(|s| s.to_string())
        .collect();
    assert_eq!(list_chunks(&names), vec![0, 1, 2, 10]);
}

#[test]
fn listing_has_no_duplicates() {
    let names: Vec<String> = ["chunk_1.bin", "chunk_01.bin", "chunk_+1.bin", "chunk_0.bin"]
        .iter()
        .map(|s| s.to_string())
        .collect();
    assert_eq!(list_chunks(&names), vec![0, 1]);
}

#[test]
fn listing_of_an_empty_directory_is_empty() {
    assert_eq!(list_chunks(&Vec::new()), Vec::<usize>::new());
}

#[test]
fn insert_keeps_the_order_and_skips_what_is_there() {
    let mut v = vec![1usize, 4, 9];
    insert_ascending(&mut v, 5);
    assert_eq!(v, vec![1, 4, 5, 9]);
    insert_ascending(&mut v, 4);
    assert_eq!(v, vec![1, 4, 5, 9]);
    insert_ascending(&mut v, 0);
    insert_ascending(&mut v, 10);
    assert_eq!(v, vec![0, 1, 4, 5, 9, 10]);
}

#[test]
fn the_directory_of_a_file_is_its_identifier() {
    let id = FileId::from_u128(0x936da01f_9abd_4d9d_80c7_02af85c822a8);
    assert_eq!(storage_dir_name(id), "936da01f-9abd-4d9d-80c7-02af85c822a8");
}
