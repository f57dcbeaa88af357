use digital_garden::commit::{commit_into, plan_commit, temp_file_name, CommitPlan};
use digital_garden::naming::contains_name;
use digital_garden::draft::{skeleton, trim_bytes, EntryDraft};
use digital_garden::errors::GardenError;
use digital_garden::session::{SessionEvent, SessionState};
use digital_garden::time::{timestamp_from_epoch, Timestamp};

fn ts() -> Timestamp {
    Timestamp { year: 2024, month: 5, day: 17, hour: 8, minute: 30, second: 0 }
}

fn draft(title: Option<&[u8]>, body: &[u8]) -> EntryDraft {
    EntryDraft { title: title.map(|t| t.to_vec()), body: body.to_vec(), created: ts() }
}

#[test]
fn skeleton_seeds_the_title_as_a_heading() {
    assert_eq!(skeleton(&Some(b"Morning Notes".to_vec())), b"# Morning Notes\n".to_vec());
    assert_eq!(skeleton(&None), b"".to_vec());
}

#[test]
fn trim_strips_surrounding_whitespace_only() {
    assert_eq!(trim_bytes(&b"  \n\thello there\r\n".to_vec()), b"hello there".to_vec());
    assert_eq!(trim_bytes(&b"   \t\n".to_vec()), b"".to_vec());
    assert_eq!(trim_bytes(&b"solid".to_vec()), b"solid".to_vec());
}

#[test]
fn untouched_skeleton_is_abandoned() {
    let seeded = skeleton(&Some(b"Morning Notes".to_vec()));
    let d = draft(Some(b"Morning Notes"), &seeded);
    assert!(d.is_abandoned());
}

#[test]
fn whitespace_only_draft_is_abandoned() {
    let d = draft(None, b" \n\t ");
    assert!(d.is_abandoned());
    let empty = draft(None, b"");
    assert!(empty.is_abandoned());
}

#[test]
fn real_content_is_not_abandoned() {
    let mut body = skeleton(&Some(b"Morning Notes".to_vec()));
    body.extend_from_slice(b"Had coffee, planned the week.");
    let d = draft(Some(b"Morning Notes"), &body);
    assert!(!d.is_abandoned());
}

#[test]
fn abandoned_draft_plans_a_skip() {
    let seeded = skeleton(&Some(b"Morning Notes".to_vec()));
    let d = draft(Some(b"Morning Notes"), &seeded);
    let plan = plan_commit(&d, &Vec::new());
    assert!(matches!(plan, CommitPlan::Skip));
}

#[test]
fn abandoned_draft_creates_no_entry() {
    let mut listing: Vec<Vec<u8>> = Vec::new();
    let d = draft(None, b"\n");
    assert_eq!(commit_into(&mut listing, &d), None);
    assert!(listing.is_empty());
}

#[test]
fn commit_stores_the_body_under_the_slug() {
    let mut body = skeleton(&Some(b"Morning Notes".to_vec()));
    body.extend_from_slice(b"Had coffee, planned the week.");
    let d = draft(Some(b"Morning Notes"), &body);
    let plan = plan_commit(&d, &Vec::new());
    match plan {
        CommitPlan::Store { name, content } => {
            assert_eq!(name, b"morning-notes".to_vec());
            assert_eq!(content, body);
        },
        CommitPlan::Skip => panic!("a real draft must be stored"),
    }
}

#[test]
fn two_commits_with_the_same_title_never_collide() {
    let mut listing: Vec<Vec<u8>> = Vec::new();
    let mut first_body = skeleton(&Some(b"Morning Notes".to_vec()));
    first_body.extend_from_slice(b"Had coffee, planned the week.");
    let first = draft(Some(b"Morning Notes"), &first_body);
    let mut second_body = skeleton(&Some(b"Morning Notes".to_vec()));
    second_body.extend_from_slice(b"Watered the plants.");
    let second = draft(Some(b"Morning Notes"), &second_body);

    let n1 = commit_into(&mut listing, &first).expect("first draft stores");
    let n2 = commit_into(&mut listing, &second).expect("second draft stores");
    assert_eq!(n1, b"morning-notes".to_vec());
    assert_eq!(n2, b"morning-notes-1".to_vec());
    assert_ne!(n1, n2);
    assert_eq!(listing, vec![n1, n2]);
}

#[test]
fn untitled_draft_with_nothing_written_saves_nothing() {
    let mut listing: Vec<Vec<u8>> = Vec::new();
    let seeded = skeleton(&None);
    let d = draft(None, &seeded);
    assert_eq!(commit_into(&mut listing, &d), None);
    assert!(listing.is_empty());
}

#[test]
fn untitled_draft_with_content_gets_the_timestamp_name() {
    let mut listing: Vec<Vec<u8>> = Vec::new();
    let d = draft(None, b"A thought worth keeping.");
    let name = commit_into(&mut listing, &d).expect("a real draft stores");
    assert_eq!(name, b"2024-05-17-08-30-00".to_vec());
}

#[test]
fn timestamp_validity_is_checked() {
    assert!(ts().is_wf());
    let bad = Timestamp { year: 2024, month: 0, day: 1, hour: 0, minute: 0, second: 0 };
    assert!(!bad.is_wf());
    let late = Timestamp { year: 10000, month: 1, day: 1, hour: 0, minute: 0, second: 0 };
    assert!(!late.is_wf());
}

#[test]
fn a_failure_before_the_rename_leaves_no_entry_under_the_final_name() {
    // Simulate a commit that dies between the temp write and the rename:
    // the directory then holds the temp artifact and nothing else new.
    let mut body = skeleton(&Some(b"Morning Notes".to_vec()));
    body.extend_from_slice(b"Had coffee, planned the week.");
    let d = draft(Some(b"Morning Notes"), &body);
    let listing = vec![b"older-entry".to_vec()];
    match plan_commit(&d, &listing) {
        CommitPlan::Store { name, .. } => {
            let mut after_temp_step = listing.clone();
            after_temp_step.push(temp_file_name(&name));
            assert_eq!(temp_file_name(&name), b"morning-notes.part".to_vec());
            assert!(!contains_name(&after_temp_step, &name));
        },
        CommitPlan::Skip => panic!("a real draft must be stored"),
    }
}

#[test]
fn epoch_zero_is_the_first_instant_of_1970() {
    let t = timestamp_from_epoch(0).expect("in range");
    assert_eq!(t, Timestamp { year: 1970, month: 1, day: 1, hour: 0, minute: 0, second: 0 });
}

#[test]
fn epoch_conversion_knows_the_calendar() {
    let t = timestamp_from_epoch(1_000_000_000).expect("in range");
    assert_eq!(t, Timestamp { year: 2001, month: 9, day: 9, hour: 1, minute: 46, second: 40 });
    let leap = timestamp_from_epoch(1_709_164_800).expect("in range");
    assert_eq!(leap, Timestamp { year: 2024, month: 2, day: 29, hour: 0, minute: 0, second: 0 });
}

#[test]
fn epoch_conversion_stops_past_year_9999() {
    assert_eq!(timestamp_from_epoch(300_000_000_000), None);
}

#[test]
fn every_error_kind_has_a_message() {
    let kinds = [
        GardenError::ScratchCreation,
        GardenError::EditorLaunch,
        GardenError::InvalidContent,
        GardenError::GardenRoot,
        GardenError::Persist,
    ];
    for k in kinds {
        assert!(!k.message().is_empty());
    }
}

#[test]
fn session_walks_forward_to_committed() {
    let s = SessionState::Idle;
    let s = s.step(SessionEvent::ScratchMade { ok: true });
    assert_eq!(s, SessionState::ScratchCreated);
    let s = s.step(SessionEvent::EditorStarted { ok: true });
    assert_eq!(s, SessionState::Editing);
    let s = s.step(SessionEvent::EditorExited { exited_ok: true, decoded: true });
    assert_eq!(s, SessionState::Read);
    let s = s.step(SessionEvent::Classified { abandoned: false });
    assert_eq!(s, SessionState::Validated);
    let s = s.step(SessionEvent::Persisted { root_ok: true, stored: true });
    assert_eq!(s, SessionState::Committed);
}

#[test]
fn session_failures_are_terminal() {
    let s = SessionState::ScratchCreated.step(SessionEvent::EditorStarted { ok: false });
    assert_eq!(s, SessionState::Failed(GardenError::EditorLaunch));
    let after = s.step(SessionEvent::Classified { abandoned: true });
    assert_eq!(after, s);
    let bad_root = SessionState::Validated.step(SessionEvent::Persisted {
        root_ok: false,
        stored: false,
    });
    assert_eq!(bad_root, SessionState::Failed(GardenError::GardenRoot));
}

#[test]
fn abandoned_session_skips() {
    let s = SessionState::Read.step(SessionEvent::Classified { abandoned: true });
    assert_eq!(s, SessionState::Abandoned);
    let s = s.step(SessionEvent::Dropped);
    assert_eq!(s, SessionState::Skipped);
}
