use nub_script::error::ScriptError;
use nub_script::model::{Commit, File, GcCommit, GcResponse, Response};
use nub_script::store::NubScript;

#[test]
fn write_file_defaults_mode() {
    let mut c = GcCommit::new("repo.namespace");
    c.write_file("a.sh", "echo", Some("0755"));
    c.write_file("b.txt", "text", None);
    let commit = c.to_commit();
    assert_eq!(
        commit.files_created,
        vec![
            File {
                filename: "a.sh".to_string(),
                mode: "0755".to_string(),
                content: "echo".to_string()
            },
            File {
                filename: "b.txt".to_string(),
                mode: "0644".to_string(),
                content: "text".to_string()
            },
        ]
    );
    assert_eq!(commit.message, None);
}

#[test]
fn added_commit_is_a_copy() {
    let mut r = GcResponse::new("CHANGE");
    let mut c = GcCommit::new("ns");
    c.set_message("first");
    r.add_commit(&c);
    c.set_message("second");
    let Response::Change { commits } = r.to_response().unwrap() else {
        panic!("expected a change");
    };
    assert_eq!(commits[0].message, Some("first".to_string()));
}

#[test]
fn notify_response_message() {
    let mut r = GcResponse::new("NOTIFY");
    r.add_commit(&GcCommit::new("ignored"));
    match r.to_response().unwrap() {
        Response::Notify { message } => assert_eq!(message, "No message"),
        other => panic!("unexpected: {:?}", other),
    }
    r.ack(Some("Acknowledged added context"));
    match r.to_response().unwrap() {
        Response::Notify { message } => assert_eq!(message, "Acknowledged added context"),
        other => panic!("unexpected: {:?}", other),
    }
}

#[test]
fn unknown_category_is_refused() {
    let r = GcResponse::new("REQUEST");
    assert_eq!(r.to_response().unwrap_err(), "Unknown response category: REQUEST");
}

#[test]
fn default_commit_is_empty() {
    let c = Commit::default();
    assert_eq!(c.namespace, "");
    assert!(c.files_created.is_empty() && c.files_deleted.is_empty() && c.files_moved.is_empty());
}

#[test]
fn data_blocks_read_after_write() {
    let mut nub = NubScript::default();
    nub.add_data_block_content("repo.my_repo0", "README.md", "first");
    nub.add_data_block_content("repo.my_repo0", "main.rs", "fn main() {}");
    nub.add_data_block_content("repo.my_repo0", "README.md", "second");
    assert_eq!(nub.get_data_block("repo.my_repo0", "README.md").unwrap(), "second");
    assert_eq!(nub.get_data_block("repo.my_repo0", "main.rs").unwrap(), "fn main() {}");
    match nub.get_data_block("repo.my_repo0", "missing") {
        Err(ScriptError::DataBlockNotFound(ns, name)) => {
            assert_eq!(ns, "repo.my_repo0");
            assert_eq!(name, "missing");
        }
        other => panic!("unexpected: {:?}", other),
    }
    match nub.get_data_block("repo.other", "README.md") {
        Err(ScriptError::NamespaceNotFound(ns)) => assert_eq!(ns, "repo.other"),
        other => panic!("unexpected: {:?}", other),
    }
}

#[test]
fn missing_data_block_is_none() {
    let mut nub = NubScript::default();
    nub.add_data_block_content("repo", "a.txt", "A");
    assert_eq!(nub.find_data_block("repo", "a.txt"), Some("A".to_string()));
    assert_eq!(nub.find_data_block("repo", "b.txt"), None);
    assert_eq!(nub.find_data_block("other", "a.txt"), None);
    let copy = nub.clone();
    assert_eq!(copy.find_data_block("repo", "a.txt"), Some("A".to_string()));
}
