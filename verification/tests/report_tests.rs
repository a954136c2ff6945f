use image_dedup::fingerprint::Fingerprint;
use image_dedup::matcher::MatchedPair;
use image_dedup::report::{assemble, get_file_info, FileProbe, PairProbe, Resolution};
use image_dedup::table::FingerprintTable;

#[test]
fn get_file_info_reports_name_size_resolution_and_format() {
    let probe = FileProbe { size: Some(2048), resolution: Some(Resolution { width: 640, height: 480 }) };
    let info = get_file_info(&"/photos/trip/beach.jpeg".to_string(), &probe);
    assert_eq!(info.filename, "beach.jpeg");
    assert_eq!(info.path, "/photos/trip/beach.jpeg");
    assert_eq!(info.size, 2048);
    assert_eq!(info.resolution, Resolution { width: 640, height: 480 });
    assert_eq!(info.format, "jpeg");
}

#[test]
fn missing_metadata_is_reported_as_zero() {
    let probe = FileProbe { size: None, resolution: None };
    let info = get_file_info(&"/photos/gone.png".to_string(), &probe);
    assert_eq!(info.filename, "gone.png");
    assert_eq!(info.size, 0);
    assert_eq!(info.resolution, Resolution { width: 0, height: 0 });
    assert_eq!(info.format, "png");
}

#[test]
fn each_missing_part_is_zero_by_itself() {
    let only_size = FileProbe { size: Some(7), resolution: None };
    let info = get_file_info(&"a.webp".to_string(), &only_size);
    assert_eq!(info.size, 7);
    assert_eq!(info.resolution, Resolution { width: 0, height: 0 });
    let only_resolution = FileProbe { size: None, resolution: Some(Resolution { width: 3, height: 2 }) };
    let info = get_file_info(&"a.webp".to_string(), &only_resolution);
    assert_eq!(info.size, 0);
    assert_eq!(info.resolution, Resolution { width: 3, height: 2 });
}

#[test]
fn a_path_without_name_or_extension_gives_empty_texts() {
    let probe = FileProbe { size: Some(1), resolution: None };
    let info = get_file_info(&"/photos/README".to_string(), &probe);
    assert_eq!(info.filename, "README");
    assert_eq!(info.format, "");
    let info = get_file_info(&"/".to_string(), &probe);
    assert_eq!(info.filename, "");
    assert_eq!(info.format, "");
    assert_eq!(info.path, "/");
}

#[test]
fn assemble_joins_the_two_files_of_a_pair() {
    let mut table = FingerprintTable::new();
    table.insert("/r/a.png".to_string(), Fingerprint::from_bytes(8, vec![0x0F]).unwrap());
    table.insert("/r/x.txt".to_string(), Fingerprint::from_bytes(8, vec![0xFF]).unwrap());
    table.insert("/r/b.jpg".to_string(), Fingerprint::from_bytes(8, vec![0x0E]).unwrap());
    let pair = MatchedPair { first: 0, second: 2, distance: 1 };
    let probe = PairProbe {
        first: FileProbe { size: Some(10), resolution: Some(Resolution { width: 4, height: 3 }) },
        second: FileProbe { size: Some(20), resolution: None },
    };
    let candidate = assemble(&table, &pair, &probe);
    assert_eq!(candidate.distance, 1);
    assert_eq!(candidate.first.filename, "a.png");
    assert_eq!(candidate.first.path, "/r/a.png");
    assert_eq!(candidate.first.size, 10);
    assert_eq!(candidate.first.resolution, Resolution { width: 4, height: 3 });
    assert_eq!(candidate.first.format, "png");
    assert_eq!(candidate.second.filename, "b.jpg");
    assert_eq!(candidate.second.path, "/r/b.jpg");
    assert_eq!(candidate.second.size, 20);
    assert_eq!(candidate.second.resolution, Resolution { width: 0, height: 0 });
    assert_eq!(candidate.second.format, "jpg");
}
