use nix_varlink_client::store_path::StorePath;
use nix_varlink_client::submission::Submission;
use nix_varlink_client::submission::SubmitAction;
use nix_varlink_client::submission::SubmitEvent;
use nix_varlink_client::task::OutputFile;

const FIRST: &str = "/nix/store/55xkmqns51sw7nrgykp5vnz36w4fr3cw-out";
const SECOND: &str = "/nix/store/00000000000000000000000000000000-dev";

fn output(name: &str, rel_path: Option<&str>, build_path: &str) -> OutputFile {
    OutputFile {
        build_path: build_path.as_bytes().to_vec(),
        rel_path: rel_path.map(|p| p.as_bytes().to_vec()),
        output_name: Some(name.to_string()),
    }
}

fn path(full: &str) -> StorePath {
    StorePath::parse("/nix/store", full).unwrap()
}

fn shown(action: SubmitAction) -> String {
    let text = |bytes: Vec<u8>| String::from_utf8(bytes).unwrap();
    match action {
        SubmitAction::Examine(staging) => format!("examine {}", text(staging)),
        SubmitAction::Remove(staging) => format!("remove {}", text(staging)),
        SubmitAction::Create(staging) => format!("create {}", text(staging)),
        SubmitAction::Copy(copy) => format!("copy {} {}", text(copy.from), text(copy.to)),
        SubmitAction::Add { name, staging } => format!("add {} {}", name, text(staging)),
        SubmitAction::Submit { name, path } => {
            format!("submit {} {}", name, path.display("/nix/store"))
        }
        SubmitAction::Refuse(e) => format!("refuse {}", e.message()),
        SubmitAction::Finish => "finish".to_string(),
    }
}

/// Submits the output at hand and returns what was done for it.
fn submit(submission: &mut Submission, existed: bool, returned: &str) -> Vec<String> {
    let mut done = Vec::new();
    loop {
        let action = submission.next_action();
        let (event, last) = match &action {
            SubmitAction::Examine(_) => (SubmitEvent::Found(existed), false),
            SubmitAction::Add { .. } => (SubmitEvent::Added(path(returned)), false),
            SubmitAction::Submit { .. } => (SubmitEvent::Done, true),
            SubmitAction::Refuse(_) | SubmitAction::Finish => panic!("{:?}", action),
            _ => (SubmitEvent::Done, false),
        };
        done.push(shown(action));
        submission.report(event);
        if last {
            return done;
        }
    }
}

fn two_outputs() -> Vec<OutputFile> {
    vec![output("out", Some("lib/a"), "b/a"), output("dev", Some("h"), "b/h")]
}

#[test]
fn output_is_submitted_step_by_step() {
    let mut submission = Submission::new(b"/s".to_vec(), two_outputs());
    assert_eq!(
        submit(&mut submission, true, FIRST),
        [
            "examine /s/out".to_string(),
            "remove /s/out".to_string(),
            "create /s/out".to_string(),
            "copy b/a /s/out/lib/a".to_string(),
            "add out /s/out".to_string(),
            format!("submit out {}", FIRST),
        ]
    );
    assert_eq!(
        submit(&mut submission, false, SECOND),
        [
            "examine /s/dev".to_string(),
            "create /s/dev".to_string(),
            "copy b/h /s/dev/h".to_string(),
            "add dev /s/dev".to_string(),
            format!("submit dev {}", SECOND),
        ]
    );
    assert!(matches!(submission.next_action(), SubmitAction::Finish));
}

#[test]
fn submission_stops_at_the_first_refusal() {
    let mut outputs = two_outputs();
    outputs.insert(1, output("doc", None, "b/d"));
    let mut submission = Submission::new(b"/s".to_vec(), outputs);
    submit(&mut submission, false, FIRST);
    for event in [
        SubmitEvent::Done,
        SubmitEvent::Found(true),
        SubmitEvent::Found(false),
        SubmitEvent::Added(path(SECOND)),
    ] {
        assert_eq!(shown(submission.next_action()), "refuse output doc has no rel_path");
        submission.report(event);
    }
    assert_eq!(shown(submission.next_action()), "refuse output doc has no rel_path");
}

#[test]
fn submission_of_nothing_is_finished() {
    let mut submission = Submission::new(b"/s".to_vec(), vec![]);
    assert!(matches!(submission.next_action(), SubmitAction::Finish));
    submission.report(SubmitEvent::Done);
    assert!(matches!(submission.next_action(), SubmitAction::Finish));
}

#[test]
fn events_that_are_no_answer_change_nothing() {
    let mut submission = Submission::new(b"/s".to_vec(), two_outputs());
    submission.report(SubmitEvent::Done);
    submission.report(SubmitEvent::Added(path(SECOND)));
    assert_eq!(shown(submission.next_action()), "examine /s/out");
    submission.report(SubmitEvent::Found(false));
    submission.report(SubmitEvent::Found(true));
    assert_eq!(shown(submission.next_action()), "create /s/out");
    submission.report(SubmitEvent::Done);
    submission.report(SubmitEvent::Done);
    submission.report(SubmitEvent::Done);
    assert_eq!(shown(submission.next_action()), "add out /s/out");
    submission.report(SubmitEvent::Added(path(FIRST)));
    submission.report(SubmitEvent::Added(path(SECOND)));
    assert_eq!(shown(submission.next_action()), format!("submit out {}", FIRST));
}
