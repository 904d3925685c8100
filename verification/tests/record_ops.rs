use linktree::account::LinkTreeAccount;
use linktree::auth::authorize;
use linktree::error::ErrorCode;
use linktree::identity::Identity;

fn ident(b: u8) -> Identity {
    Identity::new([b; 32])
}

fn strings(items: &[&str]) -> Vec<String> {
    items.iter().map(|s| s.to_string()).collect()
}

#[test]
fn new_account_is_empty() {
    let account = LinkTreeAccount::new(ident(7), "handle".to_string());
    assert_eq!(account.owner, ident(7));
    assert_eq!(account.username, "handle".to_string());
    assert_eq!(account.links.len(), 0);
    assert_eq!(account.link_counter, 0);
}

#[test]
fn append_assigns_consecutive_ids_in_input_order() {
    let mut account = LinkTreeAccount::new(ident(7), "handle".to_string());
    let ids = account
        .append_links(
            &strings(&["https://a.example", "https://b.example"]),
            &strings(&["A", "B"]),
        )
        .unwrap();
    assert_eq!(ids, vec![0, 1]);
    assert_eq!(account.link_counter, 2);
    assert_eq!(account.links[0].url, "https://a.example".to_string());
    assert_eq!(account.links[0].title, "A".to_string());
    assert_eq!(account.links[1].url, "https://b.example".to_string());
    assert_eq!(account.links[1].title, "B".to_string());
    assert!(account.links[0].active && account.links[1].active);
}

#[test]
fn append_rejects_overlong_title_whole_batch() {
    let mut account = LinkTreeAccount::new(ident(7), "handle".to_string());
    let long_title: String = "t".repeat(51);
    assert_eq!(
        account.append_links(
            &strings(&["https://a.example", "https://b.example"]),
            &vec!["ok".to_string(), long_title],
        ),
        Err(ErrorCode::FieldTooLong)
    );
    assert_eq!(account.links.len(), 0);
    assert_eq!(account.link_counter, 0);
}

#[test]
fn append_rejects_overlong_url_whole_batch() {
    let mut account = LinkTreeAccount::new(ident(7), "handle".to_string());
    let long_url: String = "u".repeat(201);
    assert_eq!(
        account.append_links(&vec![long_url], &strings(&["ok"])),
        Err(ErrorCode::FieldTooLong)
    );
    assert_eq!(account.links.len(), 0);
}

#[test]
fn append_accepts_fields_exactly_at_their_bounds() {
    let mut account = LinkTreeAccount::new(ident(7), "handle".to_string());
    let title: String = "t".repeat(50);
    let url: String = "u".repeat(200);
    assert_eq!(account.append_links(&vec![url], &vec![title]), Ok(vec![0]));
    assert_eq!(account.links.len(), 1);
}

#[test]
fn remove_keeps_relative_order_and_ignores_unknown_ids() {
    let mut account = LinkTreeAccount::new(ident(7), "handle".to_string());
    account
        .append_links(
            &strings(&["https://a.example", "https://b.example", "https://c.example"]),
            &strings(&["A", "B", "C"]),
        )
        .unwrap();
    // id 99 matches nothing: a no-op for that id, not an error
    let deleted = account.remove_links(&vec![1, 99]);
    assert_eq!(deleted, 1);
    assert_eq!(account.links.len(), 2);
    assert_eq!(account.links[0].id, 0);
    assert_eq!(account.links[0].title, "A".to_string());
    assert_eq!(account.links[1].id, 2);
    assert_eq!(account.links[1].title, "C".to_string());
    assert_eq!(account.link_counter, 3);
}

#[test]
fn remove_twice_deletes_nothing_the_second_time() {
    let mut account = LinkTreeAccount::new(ident(7), "handle".to_string());
    account
        .append_links(
            &strings(&["https://a.example", "https://b.example"]),
            &strings(&["A", "B"]),
        )
        .unwrap();
    assert_eq!(account.remove_links(&vec![1]), 1);
    assert_eq!(account.remove_links(&vec![1]), 0);
    assert_eq!(account.links.len(), 1);
}

#[test]
fn ids_are_not_reused_after_deleting_the_highest() {
    let mut account = LinkTreeAccount::new(ident(7), "handle".to_string());
    account
        .append_links(&strings(&["https://a.example"]), &strings(&["A"]))
        .unwrap();
    assert_eq!(account.remove_links(&vec![0]), 1);
    assert_eq!(account.links.len(), 0);
    // the counter survived the deletion: the next id is 1, not 0 again
    let ids = account
        .append_links(&strings(&["https://b.example"]), &strings(&["B"]))
        .unwrap();
    assert_eq!(ids, vec![1]);
    assert_eq!(account.link_counter, 2);
}

#[test]
fn authorize_admits_only_the_owner() {
    let account = LinkTreeAccount::new(ident(7), "handle".to_string());
    assert_eq!(authorize(&account, &ident(7)), Ok(()));
    assert_eq!(authorize(&account, &ident(8)), Err(ErrorCode::Unauthorized));
}

#[test]
fn empty_batch_is_accepted_and_assigns_nothing() {
    let mut account = LinkTreeAccount::new(ident(7), "handle".to_string());
    let ids = account.append_links(&strings(&[]), &strings(&[])).unwrap();
    assert_eq!(ids, Vec::<u64>::new());
    assert_eq!(account.link_counter, 0);
}
