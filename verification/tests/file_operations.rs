use nub_script::model::{Commit, FileMove, GcCommit, GcResponse, Response};

#[test]
fn test_file_operations() {
    let mut response = GcResponse::new("CHANGE");

    let mut commit1 = GcCommit::new("repo1");
    commit1.delete_file("file_to_delete.txt");
    commit1.move_file("old_name.txt", "new_name.txt");
    commit1.set_message("Delete and move files in repo1");
    response.add_commit(&commit1);

    let mut commit2 = GcCommit::new("repo2");
    commit2.delete_file("another_file.txt");
    commit2.set_message("Delete a file in repo2");
    response.add_commit(&commit2);

    let response = response.to_response().unwrap();
    let Response::Change { commits } = response else {
        panic!("Expected a Change response, got: {:?}", response);
    };
    assert_eq!(commits.len(), 2);

    let expected_commit1 = Commit {
        namespace: "repo1".to_string(),
        message: Some("Delete and move files in repo1".to_string()),
        files_created: vec![],
        files_deleted: vec!["file_to_delete.txt".to_string()],
        files_moved: vec![FileMove {
            source: "old_name.txt".to_string(),
            destination: "new_name.txt".to_string(),
        }],
    };
    assert_eq!(commits[0], expected_commit1);

    let expected_commit2 = Commit {
        namespace: "repo2".to_string(),
        message: Some("Delete a file in repo2".to_string()),
        files_created: vec![],
        files_deleted: vec!["another_file.txt".to_string()],
        files_moved: vec![],
    };
    assert_eq!(commits[1], expected_commit2);
}
