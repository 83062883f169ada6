use git_conform::tracking::list;

#[test]
fn case_list_empty() {
    assert_eq!(list(""), Err(String::from("No repository is being tracked")));
}

#[test]
fn list_gives_the_file_as_it_is() {
    assert_eq!(list("/a\n/b\n"), Ok(String::from("/a\n/b\n")));
}
