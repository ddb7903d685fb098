use shake_bot::links::{
    batch_file_references, collect_link_mapping, ENCODED_ITEM_PREFIX_LEN, MAX_BATCH_ITEMS,
    MAX_HEADER_LEN,
};
use shake_bot::serde_response::{BatchPage, ImageInfo};

#[test]
fn batches_partition_input_exactly_once() {
    let files: Vec<String> = (0..137).map(|i| format!("vo_file_{i:04}.mp3")).collect();
    let empty_request_len = 120;
    let batches = batch_file_references(&files, empty_request_len);
    let budget = MAX_HEADER_LEN - empty_request_len;
    let flattened: Vec<String> = batches.iter().flatten().cloned().collect();
    assert_eq!(flattened, files);
    for batch in batches.iter() {
        assert!(!batch.is_empty());
        assert!(batch.len() <= MAX_BATCH_ITEMS);
        let weight: usize = batch.iter().map(|f| ENCODED_ITEM_PREFIX_LEN + f.len()).sum();
        assert!(weight < budget);
    }
}

#[test]
fn item_cap_forces_flush() {
    // tiny names never hit the length budget, so the item cap decides
    let files: Vec<String> = (0..120).map(|i| format!("f{i}")).collect();
    let batches = batch_file_references(&files, 100);
    assert_eq!(batches.len(), 3);
    assert_eq!(batches[0].len(), MAX_BATCH_ITEMS);
    assert_eq!(batches[1].len(), MAX_BATCH_ITEMS);
    assert_eq!(batches[2].len(), 20);
}

#[test]
fn no_files_no_batches() {
    let batches = batch_file_references(&Vec::new(), 100);
    assert_eq!(batches.len(), 0);
}

#[test]
fn link_mapping_truncates_and_strips_namespace() {
    let pages = vec![
        BatchPage {
            title: "File:Vo a.mp3".to_string(),
            imageinfo: vec![ImageInfo {
                url: "http://cdn.test/Vo_a.mp3/revision/latest".to_string(),
            }],
        },
        // malformed: no image info
        BatchPage { title: "File:Vo b.mp3".to_string(), imageinfo: vec![] },
        // malformed: no extension marker in the URL
        BatchPage {
            title: "File:Vo c.mp3".to_string(),
            imageinfo: vec![ImageInfo { url: "http://cdn.test/nothing".to_string() }],
        },
    ];
    let mapping = collect_link_mapping(&pages);
    assert_eq!(mapping.len(), 1);
    assert_eq!(mapping[0].0, "Vo a.mp3");
    assert_eq!(mapping[0].1, "http://cdn.test/Vo_a.mp3");
}
