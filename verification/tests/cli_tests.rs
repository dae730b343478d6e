use orchestrator_rust::cli::{filename_of, get_filename, AnyOrchestrator, FilenameError};
use orchestrator_rust::orchestrator::{Note, Orchestrator};
use orchestrator_rust::scalar::Scalar;
use orchestrator_rust::timeline_orchestrator::{TimelineNote, TimelineOrchestrator};

fn sc(x: f64) -> Scalar {
    Scalar::from_bits(x.to_bits())
}

#[test]
fn the_stem_of_a_path_names_the_output() {
    assert_eq!(get_filename("songs/tune.json"), Ok("tune".to_string()));
    assert_eq!(get_filename("tune.json"), Ok("tune".to_string()));
    assert_eq!(get_filename("/a/b/c/ode.to.joy.json"), Ok("ode.to.joy".to_string()));
    assert_eq!(get_filename("tune"), Ok("tune".to_string()));
    assert_eq!(get_filename(".hidden"), Ok(".hidden".to_string()));
    assert_eq!(get_filename("songs/tune.json/"), Ok("tune".to_string()));
}

#[test]
fn the_stem_is_not_the_path_handed_back() {
    let name = get_filename("songs/tune.json").unwrap();
    assert_ne!(name, "songs/tune.json");
    assert!("songs/tune.json".contains(&name));
}

#[test]
fn a_stem_is_never_empty() {
    for path in ["a", ".a", "a.", "..a", "a..", "...", ".a.b", "dir/.b", "dir/b.", "x/.."] {
        if let Ok(name) = get_filename(path) {
            assert!(!name.is_empty(), "{}", path);
            assert!(path.contains(&name), "{}", path);
        }
    }
    assert_eq!(get_filename("a."), Ok("a".to_string()));
    assert_eq!(get_filename("..a"), Ok(".".to_string()));
    assert_eq!(get_filename("..."), Ok("..".to_string()));
    assert_eq!(get_filename(".a.b"), Ok(".a".to_string()));
}

#[test]
fn a_path_without_a_file_name_names_nothing() {
    assert_eq!(get_filename(""), Err(FilenameError::NoFileName));
    assert_eq!(get_filename(".."), Err(FilenameError::NoFileName));
    assert_eq!(get_filename("/"), Err(FilenameError::NoFileName));
    assert_eq!(get_filename("songs/.."), Err(FilenameError::NoFileName));
}

#[test]
fn a_stem_is_kept_and_a_missing_stem_is_an_error() {
    assert_eq!(filename_of(Some("tune".to_string())), Ok("tune".to_string()));
    assert_eq!(filename_of(Some(String::new())), Ok(String::new()));
    assert_eq!(filename_of(None), Err(FilenameError::NoFileName));
}

#[test]
fn either_kind_of_job_answers_for_itself() {
    let notes = vec![Note::new(9, 4, sc(1.0), sc(1.0)), Note::new(0, 4, sc(1.0), sc(1.0))];
    let regular = AnyOrchestrator::Regular(Orchestrator::new(120, notes, None).ok().unwrap());
    assert!(!regular.is_bezier());
    assert_eq!(regular.note_count(), 2);

    let notes = vec![TimelineNote::new(9, 4, sc(0.0), sc(1.0), sc(1.0))];
    let curve = vec![sc(0.0), sc(1.0), sc(-1.0), sc(0.0)];
    let timeline = AnyOrchestrator::Timeline(
        TimelineOrchestrator::new(120, notes, Some(curve), None).ok().unwrap(),
    );
    assert!(timeline.is_bezier());
    assert_eq!(timeline.note_count(), 1);
}
