use image_dedup::engine::{hash_file, DecodeError, DecodeFailure, HashConfig};
use image_dedup::fingerprint::Fingerprint;
use image_dedup::matcher::MatchedPair;
use image_dedup::report::{FileProbe, PairProbe, Resolution};
use image_dedup::events::{Event, Outcome, RunError, Stage};
use image_dedup::run::{Run, RunConfig};
use image_dedup::scan::{EntryKind, ScannedEntry};

fn config(threshold: u32) -> RunConfig {
    RunConfig { hash: HashConfig::default(), threshold }
}

fn file(path: &str) -> ScannedEntry {
    ScannedEntry { path: path.to_string(), kind: EntryKind::File }
}

fn roots() -> Option<Vec<String>> {
    Some(vec!["/root".to_string()])
}

fn picture(seed: u32, format: image::ImageFormat) -> Vec<u8> {
    let picture = image::RgbImage::from_fn(96, 64, |x, y| {
        let v = (x * 29 + y * 13 + seed * 101) % 256;
        let w = (x * y + seed * 7) % 256;
        image::Rgb([v as u8, w as u8, ((v * 3 + w) % 256) as u8])
    });
    let mut out = std::io::Cursor::new(Vec::new());
    picture.write_to(&mut out, format).unwrap();
    out.into_inner()
}

fn print_of(bytes: Vec<u8>) -> Fingerprint {
    Fingerprint::from_bytes(bytes.len() as u32 * 8, bytes).unwrap()
}

fn probe(size: u64, width: u32, height: u32) -> FileProbe {
    FileProbe { size: Some(size), resolution: Some(Resolution { width, height }) }
}

fn ticks(count: usize) -> Vec<Event> {
    vec![Event::CurrentFileCount(1); count]
}

fn hashing_run(paths: &[&str], threshold: u32) -> Run {
    let mut run = Run::new(config(threshold));
    run.begin(&roots()).unwrap();
    let entries: Vec<ScannedEntry> = paths.iter().map(|p| file(p)).collect();
    run.scanned(&entries).unwrap();
    run
}

fn compare_all(run: &mut Run) {
    run.begin_comparing().unwrap();
    while run.compared_count() < run.table().len() {
        run.compare_next().unwrap();
    }
}

fn probes_for(run: &Run) -> Vec<PairProbe> {
    run.matches()
        .iter()
        .map(|_| PairProbe { first: probe(1, 2, 3), second: probe(4, 5, 6) })
        .collect()
}

#[test]
fn a_new_run_is_idle_and_holds_nothing() {
    let run = Run::new(config(9));
    assert_eq!(run.stage(), Stage::Idle);
    assert_eq!(run.threshold(), 9);
    assert_eq!(run.hash_config().bit_len(), 144);
    assert!(run.candidates().is_empty());
    assert!(run.events().is_empty());
    assert!(run.duplicates().is_empty());
    assert_eq!(run.table().len(), 0);
    assert!(run.failure().is_none());
}

#[test]
fn two_identical_pictures_are_one_candidate_pair_at_distance_zero() {
    let bytes = picture(1, image::ImageFormat::Png);
    let mut run = Run::new(config(4));
    run.begin(&roots()).unwrap();
    run.scanned(&vec![file("/root/a.png"), file("/root/b.png")]).unwrap();
    let grid = run.hash_config();
    run.record(0, hash_file(&grid, Some(&bytes))).unwrap();
    run.record(1, hash_file(&grid, Some(&bytes.clone()))).unwrap();
    compare_all(&mut run);
    assert_eq!(run.matches(), &vec![MatchedPair { first: 0, second: 1, distance: 0 }]);
    let size = bytes.len() as u64;
    run.finish(&vec![PairProbe { first: probe(size, 96, 64), second: probe(size, 96, 64) }])
        .unwrap();
    assert_eq!(run.stage(), Stage::Done);
    let duplicates = run.duplicates();
    assert_eq!(duplicates.len(), 1);
    assert_eq!(duplicates[0].distance, 0);
    assert_eq!(duplicates[0].first.filename, "a.png");
    assert_eq!(duplicates[0].first.path, "/root/a.png");
    assert_eq!(duplicates[0].second.filename, "b.png");
    assert_eq!(duplicates[0].second.path, "/root/b.png");
    assert_eq!(duplicates[0].first.size, size);
    assert_eq!(duplicates[0].second.resolution, Resolution { width: 96, height: 64 });
    assert_eq!(duplicates[0].first.format, "png");
    assert_eq!(duplicates[0].second.format, "png");
}

#[test]
fn a_text_file_never_reaches_the_table() {
    let mut run = Run::new(config(4));
    run.begin(&roots()).unwrap();
    run.scanned(&vec![file("/root/notes.txt"), file("/root/photo.jpg")]).unwrap();
    assert_eq!(run.candidates(), &vec!["/root/photo.jpg".to_string()]);
    let grid = run.hash_config();
    let bytes = picture(2, image::ImageFormat::Jpeg);
    run.record(0, hash_file(&grid, Some(&bytes))).unwrap();
    assert_eq!(run.record(1, hash_file(&grid, Some(&bytes))), Err(RunError::UnknownFile));
    assert_eq!(run.table().len(), 1);
    assert_eq!(run.table().path(0), "/root/photo.jpg");
    assert_eq!(run.table().position(&"/root/notes.txt".to_string()), None);
    compare_all(&mut run);
    run.finish(&Vec::new()).unwrap();
    assert!(run.duplicates().is_empty());
}

#[test]
fn no_folders_chosen_ends_the_run_with_an_empty_result() {
    let mut run = Run::new(config(4));
    assert_eq!(run.begin(&None), Ok(()));
    assert_eq!(run.stage(), Stage::Done);
    assert!(run.events().is_empty());
    assert!(run.failure().is_none());
    assert!(run.into_duplicates().is_empty());
}

#[test]
fn an_empty_choice_of_folders_runs_through_with_nothing() {
    let mut run = Run::new(config(4));
    run.begin(&Some(Vec::new())).unwrap();
    run.scanned(&Vec::new()).unwrap();
    compare_all(&mut run);
    run.finish(&Vec::new()).unwrap();
    assert_eq!(run.stage(), Stage::Done);
    assert_eq!(
        run.events(),
        &vec![
            Event::HashingStarted,
            Event::TotalFiles(0),
            Event::ComparingStarted,
            Event::TotalFiles(0),
            Event::DuplicatesFound(0),
        ]
    );
}

#[test]
fn a_file_deleted_before_it_is_read_is_left_out_and_the_run_completes() {
    let mut run = hashing_run(&["/root/a.png", "/root/gone.png", "/root/b.png"], 4);
    let grid = run.hash_config();
    let bytes = picture(3, image::ImageFormat::Png);
    run.record(0, hash_file(&grid, Some(&bytes))).unwrap();
    let outcome = hash_file(&grid, None);
    assert!(matches!(outcome, Err(DecodeError::Unreadable)));
    run.record(1, outcome).unwrap();
    run.record(2, hash_file(&grid, Some(&bytes))).unwrap();
    assert_eq!(
        run.outcomes(),
        &vec![Outcome::Hashed, Outcome::Failed(DecodeError::Unreadable), Outcome::Hashed]
    );
    assert_eq!(run.table().len(), 2);
    assert_eq!(run.table().position(&"/root/gone.png".to_string()), None);
    compare_all(&mut run);
    let probes = probes_for(&run);
    run.finish(&probes).unwrap();
    assert_eq!(run.stage(), Stage::Done);
    assert_eq!(run.duplicates().len(), 1);
    assert_eq!(run.duplicates()[0].first.path, "/root/a.png");
    assert_eq!(run.duplicates()[0].second.path, "/root/b.png");
}

#[test]
fn every_candidate_gets_one_tick_whether_it_decodes_or_not() {
    let mut run = hashing_run(&["a.png", "b.png", "c.png", "d.png"], 4);
    assert_eq!(run.events(), &vec![Event::HashingStarted, Event::TotalFiles(4)]);
    run.record(2, Err(DecodeError::Undecodable(DecodeFailure::Malformed))).unwrap();
    run.record(0, Ok(print_of(vec![1]))).unwrap();
    assert_eq!(run.settled_count(), 2);
    assert_eq!(run.events().len(), 4);
    run.record(3, Err(DecodeError::Unreadable)).unwrap();
    run.record(1, Ok(print_of(vec![3]))).unwrap();
    assert_eq!(run.settled_count(), 4);
    let mut expected = vec![Event::HashingStarted, Event::TotalFiles(4)];
    expected.extend(ticks(4));
    assert_eq!(run.events(), &expected);
    run.begin_comparing().unwrap();
    let hashing: Vec<Event> = run.events()[..6].to_vec();
    let tick_count = hashing.iter().filter(|e| matches!(e, Event::CurrentFileCount(_))).count();
    assert_eq!(tick_count, run.candidates().len());
    assert_eq!(run.events()[6], Event::ComparingStarted);
}

#[test]
fn the_events_come_in_the_order_of_the_stages() {
    let mut run = hashing_run(&["a.png", "b.png", "c.png"], 2);
    run.record(0, Ok(print_of(vec![0b0000_0000]))).unwrap();
    run.record(1, Err(DecodeError::Undecodable(DecodeFailure::Unsupported))).unwrap();
    run.record(2, Ok(print_of(vec![0b0000_0011]))).unwrap();
    compare_all(&mut run);
    let probes = probes_for(&run);
    run.finish(&probes).unwrap();
    assert_eq!(
        run.events(),
        &vec![
            Event::HashingStarted,
            Event::TotalFiles(3),
            Event::CurrentFileCount(1),
            Event::CurrentFileCount(1),
            Event::CurrentFileCount(1),
            Event::ComparingStarted,
            Event::TotalFiles(2),
            Event::CurrentFileCount(1),
            Event::CurrentFileCount(1),
            Event::DuplicatesFound(1),
        ]
    );
    assert_eq!(run.duplicates()[0].distance, 2);
}

#[test]
fn the_table_holds_the_hashed_candidates_and_no_key_twice() {
    let mut run = hashing_run(&["a.png", "b.png", "a.png", "c.png"], 0);
    run.record(3, Ok(print_of(vec![3]))).unwrap();
    run.record(0, Ok(print_of(vec![1]))).unwrap();
    run.record(1, Err(DecodeError::Undecodable(DecodeFailure::Truncated))).unwrap();
    run.record(2, Ok(print_of(vec![7]))).unwrap();
    let table = run.table();
    assert_eq!(table.len(), 2);
    assert_eq!(table.path(0), "c.png");
    assert_eq!(table.path(1), "a.png");
    assert_eq!(table.fingerprint(1).to_bytes(), vec![7]);
    assert_eq!(table.position(&"b.png".to_string()), None);
    for i in 0..table.len() {
        let at = run.candidates().iter().position(|c| c == table.path(i)).unwrap();
        assert!(run.outcomes().iter().zip(run.candidates()).any(|(o, c)| {
            c == table.path(i) && *o == Outcome::Hashed
        }));
        assert!(at < run.candidates().len());
    }
}

#[test]
fn compare_next_reports_how_many_pairs_it_found() {
    let mut run = hashing_run(&["a.png", "b.png", "c.png"], 8);
    run.record(0, Ok(print_of(vec![0x00]))).unwrap();
    run.record(1, Ok(print_of(vec![0x01]))).unwrap();
    run.record(2, Ok(print_of(vec![0xFF]))).unwrap();
    run.begin_comparing().unwrap();
    assert_eq!(run.compare_next(), Ok(2));
    assert_eq!(run.compare_next(), Ok(1));
    assert_eq!(run.compare_next(), Ok(0));
    assert_eq!(run.compare_next(), Err(RunError::NoKeyLeft));
    assert_eq!(run.compared_count(), 3);
    assert_eq!(
        run.matches(),
        &vec![
            MatchedPair { first: 0, second: 1, distance: 1 },
            MatchedPair { first: 0, second: 2, distance: 8 },
            MatchedPair { first: 1, second: 2, distance: 7 },
        ]
    );
}

#[test]
fn missing_metadata_does_not_drop_a_pair() {
    let mut run = hashing_run(&["/x/a.jpg", "/x/b.webp"], 9);
    run.record(0, Ok(print_of(vec![0xF0]))).unwrap();
    run.record(1, Ok(print_of(vec![0xF1]))).unwrap();
    compare_all(&mut run);
    let nothing = FileProbe { size: None, resolution: None };
    run.finish(&vec![PairProbe { first: nothing, second: probe(5, 6, 7) }]).unwrap();
    let found = run.into_duplicates();
    assert_eq!(found.len(), 1);
    assert_eq!(found[0].distance, 1);
    assert_eq!(found[0].first.size, 0);
    assert_eq!(found[0].first.resolution, Resolution { width: 0, height: 0 });
    assert_eq!(found[0].first.filename, "a.jpg");
    assert_eq!(found[0].first.format, "jpg");
    assert_eq!(found[0].second.size, 5);
    assert_eq!(found[0].second.format, "webp");
}

#[test]
fn a_step_of_another_stage_is_refused_and_changes_nothing() {
    let mut run = Run::new(config(4));
    assert_eq!(run.scanned(&Vec::new()), Err(RunError::WrongStage));
    assert_eq!(run.record(0, Err(DecodeError::Unreadable)), Err(RunError::WrongStage));
    assert_eq!(run.begin_comparing(), Err(RunError::WrongStage));
    assert_eq!(run.compare_next(), Err(RunError::WrongStage));
    assert_eq!(run.finish(&Vec::new()), Err(RunError::WrongStage));
    assert_eq!(run.stage(), Stage::Idle);
    assert!(run.events().is_empty());
    run.begin(&roots()).unwrap();
    assert_eq!(run.begin(&roots()), Err(RunError::WrongStage));
    assert_eq!(run.stage(), Stage::Scanning);
    assert_eq!(run.events(), &vec![Event::HashingStarted]);
}

#[test]
fn a_candidate_is_settled_once() {
    let mut run = hashing_run(&["a.png", "b.png"], 4);
    run.record(0, Ok(print_of(vec![1]))).unwrap();
    assert_eq!(run.record(0, Ok(print_of(vec![2]))), Err(RunError::AlreadyRecorded));
    assert_eq!(run.record(2, Ok(print_of(vec![2]))), Err(RunError::UnknownFile));
    assert_eq!(run.table().fingerprint(0).to_bytes(), vec![1]);
    assert_eq!(run.events().len(), 3);
}

#[test]
fn comparing_waits_for_every_candidate() {
    let mut run = hashing_run(&["a.png", "b.png"], 4);
    run.record(1, Ok(print_of(vec![1]))).unwrap();
    assert_eq!(run.begin_comparing(), Err(RunError::FilesPending));
    assert_eq!(run.stage(), Stage::Hashing);
    run.record(0, Err(DecodeError::Unreadable)).unwrap();
    assert_eq!(run.begin_comparing(), Ok(()));
    assert_eq!(run.stage(), Stage::Comparing);
}

#[test]
fn finishing_waits_for_every_key_and_wants_a_probe_for_each_pair() {
    let mut run = hashing_run(&["a.png", "b.png"], 4);
    run.record(0, Ok(print_of(vec![1]))).unwrap();
    run.record(1, Ok(print_of(vec![1]))).unwrap();
    run.begin_comparing().unwrap();
    assert_eq!(run.finish(&Vec::new()), Err(RunError::KeysPending));
    run.compare_next().unwrap();
    run.compare_next().unwrap();
    assert_eq!(run.finish(&Vec::new()), Err(RunError::ProbesMismatch));
    assert_eq!(run.stage(), Stage::Comparing);
    let probes = probes_for(&run);
    assert_eq!(run.finish(&probes), Ok(()));
    assert_eq!(run.finish(&probes), Err(RunError::WrongStage));
}

#[test]
fn a_run_can_be_given_up_until_it_has_ended() {
    let mut run = hashing_run(&["a.png"], 4);
    assert_eq!(run.fail("the reporting channel is closed".to_string()), Ok(()));
    assert_eq!(run.stage(), Stage::Failed);
    assert_eq!(run.failure(), &Some("the reporting channel is closed".to_string()));
    assert_eq!(run.fail("again".to_string()), Err(RunError::WrongStage));
    assert_eq!(run.record(0, Err(DecodeError::Unreadable)), Err(RunError::WrongStage));
    let mut done = Run::new(config(4));
    done.begin(&None).unwrap();
    assert_eq!(done.fail("late".to_string()), Err(RunError::WrongStage));
    assert_eq!(done.stage(), Stage::Done);
}

#[test]
fn running_again_on_the_same_files_finds_the_same_pairs() {
    let files = [("a.png", 1u32), ("b.png", 1), ("c.png", 2), ("d.png", 1)];
    let mut results: Vec<Vec<(String, String, u32)>> = Vec::new();
    for order in [[0usize, 1, 2, 3], [3, 2, 1, 0], [2, 0, 3, 1]] {
        let names: Vec<&str> = files.iter().map(|f| f.0).collect();
        let mut run = hashing_run(&names, 4);
        let grid = run.hash_config();
        for index in order {
            let bytes = picture(files[index].1, image::ImageFormat::Png);
            run.record(index, hash_file(&grid, Some(&bytes))).unwrap();
        }
        compare_all(&mut run);
        let probes = probes_for(&run);
        run.finish(&probes).unwrap();
        let mut found: Vec<(String, String, u32)> = run
            .duplicates()
            .iter()
            .map(|d| {
                let a = d.first.path.clone();
                let b = d.second.path.clone();
                if a <= b { (a, b, d.distance) } else { (b, a, d.distance) }
            })
            .collect();
        found.sort();
        results.push(found);
    }
    assert_eq!(results[0], results[1]);
    assert_eq!(results[0], results[2]);
    assert_eq!(
        results[0],
        vec![
            ("a.png".to_string(), "b.png".to_string(), 0),
            ("a.png".to_string(), "d.png".to_string(), 0),
            ("b.png".to_string(), "d.png".to_string(), 0),
        ]
    );
}
