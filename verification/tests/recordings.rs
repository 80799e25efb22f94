use spruce_grove::recordings::{
    check_audio_request, ffmpeg_choice, default_name, delete, delete_take, extension_for, ffmpeg_candidates,
    get, index_path, library_root, list, mint_id_at, plan_splice, save_take, save_take_at,
    take_file_name_for, update, valid_id, valid_take_file, export_markdown, Patch, RecError,
    Recording, Take,
};

fn take(file: &str, mime: &str, duration: f64, transcript: &str) -> Take {
    Take {
        file: file.into(),
        mime: mime.into(),
        created_ms: 0,
        duration_bits: duration.to_bits(),
        transcript: transcript.into(),
    }
}

#[test]
fn ids_are_simple_tokens_only() {
    assert!(valid_id("rec-abc_123"));
    assert!(!valid_id(""));
    assert!(!valid_id("../escape"));
    assert!(!valid_id("a/b"));
    assert!(!valid_id("has space"));
    assert!(!valid_id(&"x".repeat(65)));
}

#[test]
fn take_files_cannot_traverse() {
    assert!(valid_take_file("take-000.webm"));
    assert!(!valid_take_file("../index.json"));
    assert!(!valid_take_file("sub/dir.webm"));
    assert!(!valid_take_file(".."));
    assert!(!valid_take_file(""));
}

#[test]
fn extension_follows_the_container() {
    assert_eq!(extension_for("audio/webm"), "webm");
    assert_eq!(extension_for("audio/mp4"), "m4a");
    assert_eq!(extension_for("audio/ogg;codecs=opus"), "ogg");
    assert_eq!(extension_for("audio/wav"), "wav");
    assert_eq!(extension_for(""), "webm");
}

#[test]
fn default_name_is_the_first_real_line() {
    let t = take("take-000.webm", "audio/webm", 1.0, "\n\n  Plan the Thursday deck  \nmore text");
    assert_eq!(default_name(&t), "Plan the Thursday deck");
}

#[test]
fn default_name_survives_silence() {
    let t = take("t", "", 0.0, "   \n  ");
    assert_eq!(default_name(&t), "untitled recording");
}

#[test]
fn default_name_is_cut_at_48_characters() {
    let t = take("t", "", 0.0, &"é".repeat(60));
    assert_eq!(default_name(&t), format!("{}…", "é".repeat(48)));
}

/// The library's part of a session: save, append, patch, lock, drop a take, export,
/// delete — on an in-memory index.
#[test]
fn library_round_trip() {
    let mut all: Vec<Recording> = Vec::new();
    let (rec, t) = save_take(
        &mut all,
        b"fake-audio-bytes",
        "audio/webm",
        2.5f64.to_bits(),
        "First thought about the plan.",
        None,
        None,
    )
    .ok()
    .expect("save");
    assert_eq!(rec.takes.len(), 1);
    assert_eq!(t.file, "take-000.webm");
    assert!(!rec.locked);
    let id = rec.id.clone();
    assert!(check_audio_request(&id, "take-000.webm").is_ok());

    let (rec2, t2) = save_take(&mut all, b"more", "audio/webm", 1.5f64.to_bits(), "Second thought.", Some(&id), None)
        .ok()
        .expect("append");
    assert_eq!(rec2.takes.len(), 2);
    assert_eq!(t2.file, "take-001.webm");

    let patched = update(
        &mut all,
        &id,
        Patch {
            name: Some("Thursday prep".into()),
            take_index: Some(0),
            transcript: Some("Edited first thought.".into()),
            ..Default::default()
        },
    )
    .ok()
    .expect("patch");
    assert_eq!(patched.name, "Thursday prep");
    assert_eq!(patched.takes[0].transcript, "Edited first thought.");

    assert!(update(&mut all, &id, Patch { locked: Some(true), ..Default::default() }).is_ok());
    assert!(update(&mut all, &id, Patch { name: Some("nope".into()), ..Default::default() }).is_err());

    assert!(update(&mut all, &id, Patch { locked: Some(false), ..Default::default() }).is_ok());
    let (after, _) = delete_take(&mut all, &id, 0).ok().expect("drop take");
    assert_eq!(after.takes.len(), 1);
    assert_eq!(after.takes[0].transcript, "Second thought.");

    let rec = get(&all, &id).ok().expect("get");
    let body = export_markdown(&rec, &vec!["1.5".to_string()]);
    assert!(body.contains("Second thought."));
    assert!(body.contains("## Transcript"));

    assert!(delete(&mut all, &id).is_ok());
    assert!(list(all).is_empty());
}

#[test]
fn splice_order_must_be_a_permutation() {
    let mut all: Vec<Recording> = Vec::new();
    let (rec, _) = save_take(&mut all, b"a", "audio/webm", 1.0f64.to_bits(), "one", None, None).ok().unwrap();
    let (rec, _) = save_take(&mut all, b"b", "audio/webm", 1.0f64.to_bits(), "two", Some(&rec.id), None).ok().unwrap();
    assert_eq!(rec.takes.len(), 2);
    // wrong length
    assert!(plan_splice(&all, &rec.id, &[0]).is_err());
    // repeat
    assert!(plan_splice(&all, &rec.id, &[0, 0]).is_err());
    // out of range
    assert!(plan_splice(&all, &rec.id, &[0, 9]).is_err());
    // a true permutation plans the reversed, renumbered takes
    let plan = plan_splice(&all, &rec.id, &[1, 0]).ok().unwrap();
    assert_eq!(plan.takes[0].transcript, "two");
    assert_eq!(plan.takes[0].file, "take-000.webm");
    assert_eq!(plan.takes[1].file, "take-001.webm");
    assert_eq!(plan.sources, vec!["take-001.webm", "take-000.webm"]);
}

#[test]
fn save_errors_and_names() {
    let mut all: Vec<Recording> = Vec::new();
    assert!(matches!(
        save_take_at(&mut all, b"", "audio/webm", 0, "x", None, None, 5),
        Err(RecError::Empty)
    ));
    assert!(matches!(
        save_take_at(&mut all, b"a", "audio/webm", 0, "x", Some("../up"), None, 5),
        Err(RecError::BadId(_))
    ));
    assert!(matches!(
        save_take_at(&mut all, b"a", "audio/webm", 0, "x", Some("rec-none"), None, 5),
        Err(RecError::NotFound(_))
    ));
    let (rec, _) = save_take_at(&mut all, b"a", "audio/wav", 0, "x", None, Some("  Named  "), 255).ok().unwrap();
    assert_eq!(rec.id, "rec-ff");
    assert_eq!(rec.name, "  Named  ");
    assert_eq!(mint_id_at(4096), "rec-1000");
    assert_eq!(take_file_name_for(7, "audio/wav"), "take-007.wav");
    assert_eq!(library_root(Some("/lib"), Some("/h")), "/lib");
    assert_eq!(library_root(Some(" "), Some("/h")), "/h/.spruce_grove/desktop/recordings");
    assert_eq!(library_root(None, None), "./.spruce_grove/desktop/recordings");
    assert_eq!(index_path("/lib"), "/lib/index.json");
    assert_eq!(ffmpeg_candidates(), vec!["/opt/homebrew/bin/ffmpeg", "/usr/local/bin/ffmpeg", "/usr/bin/ffmpeg"]);
}

#[test]
fn unlocking_needs_the_owner_pin() {
    use_unlock();
}

fn use_unlock() {
    let stored = Some(spruce_grove::studio_auth::set_pin(&None, "246810", 1000).ok().expect("pin"));
    let mut all: Vec<Recording> = Vec::new();
    let (rec, _) = save_take(&mut all, b"a", "audio/webm", 0, "one", None, None).ok().unwrap();
    assert!(update(&mut all, &rec.id, Patch { locked: Some(true), ..Default::default() }).is_ok());
    // a wrong PIN changes nothing
    assert!(spruce_grove::recordings::unlock(&mut all, &rec.id, &stored, "000000").is_none());
    assert!(get(&all, &rec.id).ok().unwrap().locked);
    // no PIN set: nothing can verify
    assert!(spruce_grove::recordings::unlock(&mut all, &rec.id, &None, "246810").is_none());
    // the right PIN unlocks
    let unlocked = spruce_grove::recordings::unlock(&mut all, &rec.id, &stored, "246810")
        .expect("pin verifies")
        .ok()
        .expect("unlock");
    assert!(!unlocked.locked);
    assert!(!get(&all, &rec.id).ok().unwrap().locked);
}

#[test]
fn a_locked_recording_is_read_only() {
    let mut all: Vec<Recording> = Vec::new();
    let (rec, _) = save_take(&mut all, b"a", "audio/webm", 0, "one", None, None).ok().unwrap();
    let (rec, _) = save_take(&mut all, b"b", "audio/webm", 0, "two", Some(&rec.id), None).ok().unwrap();
    assert!(update(&mut all, &rec.id, Patch { locked: Some(true), ..Default::default() }).is_ok());
    assert!(matches!(
        update(&mut all, &rec.id, Patch { summary: Some("x".into()), ..Default::default() }),
        Err(RecError::Locked)
    ));
    assert!(matches!(delete_take(&mut all, &rec.id, 0), Err(RecError::Locked)));
    assert!(matches!(plan_splice(&all, &rec.id, &[1, 0]), Err(RecError::Locked)));
    assert_eq!(get(&all, &rec.id).ok().unwrap().takes.len(), 2);
}

#[test]
fn what_was_saved_reads_back() {
    let mut all: Vec<Recording> = Vec::new();
    let (rec, t) = save_take_at(&mut all, b"a", "audio/ogg", 0, "  hello  ", None, None, 10).ok().unwrap();
    let (other, _) = save_take_at(&mut all, b"b", "audio/ogg", 0, "x", None, None, 11).ok().unwrap();
    assert_eq!(t.transcript, "hello");
    assert_eq!(t.file, "take-000.ogg");
    let got = get(&all, &rec.id).ok().unwrap();
    assert_eq!(got.name, "hello");
    assert_eq!(got.takes.len(), 1);
    assert_eq!(got.takes[0].file, "take-000.ogg");
    // newest first
    let listed = list(all);
    assert_eq!(listed[0].id, other.id);
    assert_eq!(listed[1].id, rec.id);
}

#[test]
fn splice_uses_the_first_ffmpeg_that_exists() {
    assert_eq!(ffmpeg_choice(&[false, true, true]), Ok("/usr/local/bin/ffmpeg".to_string()));
    assert_eq!(ffmpeg_choice(&[true, false, true]), Ok("/opt/homebrew/bin/ffmpeg".to_string()));
    assert_eq!(ffmpeg_choice(&[false, false, true]), Ok("/usr/bin/ffmpeg".to_string()));
    assert_eq!(
        ffmpeg_choice(&[false, false, false]),
        Err("ffmpeg not found — splice needs it (brew install ffmpeg)".to_string())
    );
}

#[test]
fn a_new_take_never_reuses_a_surviving_take_file() {
    let mut all: Vec<Recording> = Vec::new();
    let (rec, t0) = save_take_at(&mut all, b"a", "audio/webm", 0, "one", None, None, 100).ok().unwrap();
    let (_, t1) = save_take_at(&mut all, b"b", "audio/webm", 0, "two", Some(&rec.id), None, 101).ok().unwrap();
    assert_eq!(t0.file, "take-000.webm");
    assert_eq!(t1.file, "take-001.webm");
    let (after, _) = delete_take(&mut all, &rec.id, 0).ok().expect("drop the first take");
    assert_eq!(after.takes.len(), 1);
    assert_eq!(after.takes[0].file, "take-001.webm");
    let (rec, t2) = save_take_at(&mut all, b"c", "audio/webm", 0, "three", Some(&rec.id), None, 102).ok().unwrap();
    assert_ne!(t2.file, "take-001.webm");
    assert_eq!(t2.file, "take-000.webm");
    let (_, t3) = save_take_at(&mut all, b"d", "audio/webm", 0, "four", Some(&rec.id), None, 103).ok().unwrap();
    assert_eq!(t3.file, "take-002.webm");
}

#[test]
fn a_delete_keeps_the_others_in_order() {
    let mut all: Vec<Recording> = Vec::new();
    let (a, _) = save_take_at(&mut all, b"a", "audio/webm", 0, "one", None, None, 1).ok().unwrap();
    let (b, _) = save_take_at(&mut all, b"b", "audio/webm", 0, "two", None, None, 2).ok().unwrap();
    let (c, _) = save_take_at(&mut all, b"c", "audio/webm", 0, "three", None, None, 3).ok().unwrap();
    let before: Vec<String> = all.iter().map(|r| r.id.clone()).collect();
    assert_eq!(before, vec![c.id.clone(), b.id.clone(), a.id.clone()]);
    assert!(delete(&mut all, &b.id).is_ok());
    let after: Vec<String> = all.iter().map(|r| r.id.clone()).collect();
    assert_eq!(after, vec![c.id, a.id]);
}

#[test]
fn a_delete_fails_on_a_bad_or_absent_id_and_keeps_the_index() {
    let mut all: Vec<Recording> = Vec::new();
    let (a, _) = save_take_at(&mut all, b"a", "audio/webm", 0, "one", None, None, 1).ok().unwrap();
    assert!(matches!(delete(&mut all, "../x"), Err(RecError::BadId(_))));
    assert!(matches!(delete(&mut all, "rec-none"), Err(RecError::NotFound(_))));
    assert_eq!(all.len(), 1);
    assert!(delete(&mut all, &a.id).is_ok());
    assert!(all.is_empty());
}
