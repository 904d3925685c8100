use linktree::directory::Directory;
use linktree::error::ErrorCode;
use linktree::identity::Identity;

fn ident(b: u8) -> Identity {
    Identity::new([b; 32])
}

fn strings(items: &[&str]) -> Vec<String> {
    items.iter().map(|s| s.to_string()).collect()
}

#[test]
fn create_then_read_empty_record() {
    let mut dir = Directory::new();
    let alice = ident(1);
    let name = "alice".to_string();
    assert_eq!(dir.create_linktree_account(&alice, &name), Ok(()));
    let record = dir.get_record(&alice, &name).unwrap();
    assert_eq!(record.username, "alice".to_string());
    assert_eq!(record.owner, alice);
    assert_eq!(record.links.len(), 0);
    assert_eq!(record.link_counter, 0);
}

#[test]
fn create_twice_fails_already_exists() {
    let mut dir = Directory::new();
    let alice = ident(1);
    let name = "alice".to_string();
    assert_eq!(dir.create_linktree_account(&alice, &name), Ok(()));
    assert_eq!(
        dir.create_linktree_account(&alice, &name),
        Err(ErrorCode::AlreadyExists)
    );
}

#[test]
fn create_with_long_handle_fails() {
    let mut dir = Directory::new();
    let alice = ident(1);
    let name = "abcdefghijklmnopqrstu".to_string(); // 21 characters
    assert_eq!(
        dir.create_linktree_account(&alice, &name),
        Err(ErrorCode::HandleTooLong)
    );
    assert!(dir.get_record(&alice, &name).is_none());
}

#[test]
fn same_handle_different_owners_coexist() {
    let mut dir = Directory::new();
    let alice = ident(1);
    let bob = ident(2);
    let name = "shared".to_string();
    assert_eq!(dir.create_linktree_account(&alice, &name), Ok(()));
    assert_eq!(dir.create_linktree_account(&bob, &name), Ok(()));
    assert_eq!(
        dir.add_links(&alice, &name, &alice, &strings(&["https://a.example"]), &strings(&["A"])),
        Ok(vec![0])
    );
    assert_eq!(dir.get_record(&alice, &name).unwrap().links.len(), 1);
    assert_eq!(dir.get_record(&bob, &name).unwrap().links.len(), 0);
}

#[test]
fn lifecycle_scenario_for_alice() {
    let mut dir = Directory::new();
    let alice = ident(1);
    let name = "alice".to_string();
    assert_eq!(dir.create_linktree_account(&alice, &name), Ok(()));

    // one link: id 0, active true
    let ids = dir
        .add_links(&alice, &name, &alice, &strings(&["https://a.example"]), &strings(&["A"]))
        .unwrap();
    assert_eq!(ids, vec![0]);
    {
        let record = dir.get_record(&alice, &name).unwrap();
        assert_eq!(record.links[0].id, 0);
        assert_eq!(record.links[0].url, "https://a.example".to_string());
        assert_eq!(record.links[0].title, "A".to_string());
        assert!(record.links[0].active);
    }

    // two more: ids 1 and 2, counter at 3
    let ids = dir
        .add_links(
            &alice,
            &name,
            &alice,
            &strings(&["https://b.example", "https://c.example"]),
            &strings(&["B", "C"]),
        )
        .unwrap();
    assert_eq!(ids, vec![1, 2]);
    assert_eq!(dir.get_record(&alice, &name).unwrap().link_counter, 3);

    // delete id 1: ids 0 and 2 remain, counter stays 3
    assert_eq!(dir.delete_links(&alice, &name, &alice, &vec![1]), Ok(1));
    {
        let record = dir.get_record(&alice, &name).unwrap();
        assert_eq!(record.links.len(), 2);
        assert_eq!(record.links[0].id, 0);
        assert_eq!(record.links[1].id, 2);
        assert_eq!(record.link_counter, 3);
    }

    // re-add: the new id is 3, never 1
    let ids = dir
        .add_links(&alice, &name, &alice, &strings(&["https://d.example"]), &strings(&["D"]))
        .unwrap();
    assert_eq!(ids, vec![3]);
}

#[test]
fn length_mismatch_leaves_record_unchanged() {
    let mut dir = Directory::new();
    let alice = ident(1);
    let name = "alice".to_string();
    assert_eq!(dir.create_linktree_account(&alice, &name), Ok(()));
    assert_eq!(
        dir.add_links(
            &alice,
            &name,
            &alice,
            &strings(&["https://a.example", "https://b.example"]),
            &strings(&["A", "B"]),
        ),
        Ok(vec![0, 1])
    );
    // two urls against three titles: refused, prior two-link state kept
    assert_eq!(
        dir.add_links(
            &alice,
            &name,
            &alice,
            &strings(&["https://c.example", "https://d.example"]),
            &strings(&["C", "D", "E"]),
        ),
        Err(ErrorCode::LengthMismatch)
    );
    let record = dir.get_record(&alice, &name).unwrap();
    assert_eq!(record.links.len(), 2);
    assert_eq!(record.link_counter, 2);
}

#[test]
fn foreign_caller_cannot_delete_links() {
    let mut dir = Directory::new();
    let alice = ident(1);
    let bob = ident(2);
    let name = "alice".to_string();
    assert_eq!(dir.create_linktree_account(&alice, &name), Ok(()));
    assert_eq!(
        dir.add_links(&alice, &name, &alice, &strings(&["https://a.example"]), &strings(&["A"])),
        Ok(vec![0])
    );
    assert_eq!(
        dir.delete_links(&alice, &name, &bob, &vec![0]),
        Err(ErrorCode::Unauthorized)
    );
    assert_eq!(dir.get_record(&alice, &name).unwrap().links.len(), 1);
}

#[test]
fn foreign_caller_cannot_add_links_or_delete_record() {
    let mut dir = Directory::new();
    let alice = ident(1);
    let bob = ident(2);
    let name = "alice".to_string();
    assert_eq!(dir.create_linktree_account(&alice, &name), Ok(()));
    assert_eq!(
        dir.add_links(&alice, &name, &bob, &strings(&["https://a.example"]), &strings(&["A"])),
        Err(ErrorCode::Unauthorized)
    );
    assert_eq!(
        dir.delete_linktree_account(&alice, &name, &bob),
        Err(ErrorCode::Unauthorized)
    );
    assert!(dir.get_record(&alice, &name).is_some());
}

#[test]
fn operations_on_missing_record_fail_not_found() {
    let mut dir = Directory::new();
    let alice = ident(1);
    let name = "alice".to_string();
    assert_eq!(
        dir.add_links(&alice, &name, &alice, &strings(&["https://a.example"]), &strings(&["A"])),
        Err(ErrorCode::NotFound)
    );
    assert_eq!(
        dir.delete_links(&alice, &name, &alice, &vec![0]),
        Err(ErrorCode::NotFound)
    );
    assert_eq!(
        dir.delete_linktree_account(&alice, &name, &alice),
        Err(ErrorCode::NotFound)
    );
}

#[test]
fn delete_record_then_recreate_starts_fresh() {
    let mut dir = Directory::new();
    let alice = ident(1);
    let name = "alice".to_string();
    assert_eq!(dir.create_linktree_account(&alice, &name), Ok(()));
    assert_eq!(
        dir.add_links(
            &alice,
            &name,
            &alice,
            &strings(&["https://a.example", "https://b.example"]),
            &strings(&["A", "B"]),
        ),
        Ok(vec![0, 1])
    );
    assert_eq!(dir.delete_linktree_account(&alice, &name, &alice), Ok(()));
    assert!(dir.get_record(&alice, &name).is_none());
    // the delete is terminal, not a tombstone: the same pair can be created
    // again, and the counter does not persist past deletion
    assert_eq!(dir.create_linktree_account(&alice, &name), Ok(()));
    let record = dir.get_record(&alice, &name).unwrap();
    assert_eq!(record.links.len(), 0);
    assert_eq!(record.link_counter, 0);
}

#[test]
fn deleting_the_same_id_twice_reports_zero_the_second_time() {
    let mut dir = Directory::new();
    let alice = ident(1);
    let name = "alice".to_string();
    assert_eq!(dir.create_linktree_account(&alice, &name), Ok(()));
    assert_eq!(
        dir.add_links(
            &alice,
            &name,
            &alice,
            &strings(&["https://a.example", "https://b.example"]),
            &strings(&["A", "B"]),
        ),
        Ok(vec![0, 1])
    );
    assert_eq!(dir.delete_links(&alice, &name, &alice, &vec![0]), Ok(1));
    assert_eq!(dir.delete_links(&alice, &name, &alice, &vec![0]), Ok(0));
    assert_eq!(dir.get_record(&alice, &name).unwrap().links.len(), 1);
}

#[test]
fn capacity_boundary_at_ten_links() {
    let mut dir = Directory::new();
    let alice = ident(1);
    let name = "alice".to_string();
    assert_eq!(dir.create_linktree_account(&alice, &name), Ok(()));
    // adding exactly up to ten succeeds
    let urls: Vec<String> = (0..10).map(|i| format!("https://{}.example", i)).collect();
    let titles: Vec<String> = (0..10).map(|i| format!("t{}", i)).collect();
    let ids = dir.add_links(&alice, &name, &alice, &urls, &titles).unwrap();
    assert_eq!(ids, (0..10).collect::<Vec<u64>>());
    // the eleventh is refused whole and the record stays at ten
    assert_eq!(
        dir.add_links(&alice, &name, &alice, &strings(&["https://x.example"]), &strings(&["X"])),
        Err(ErrorCode::CapacityExceeded)
    );
    let record = dir.get_record(&alice, &name).unwrap();
    assert_eq!(record.links.len(), 10);
    assert_eq!(record.link_counter, 10);
}

#[test]
fn handle_length_is_counted_in_characters_not_bytes() {
    let mut dir = Directory::new();
    let alice = ident(1);
    // twenty two-byte characters: forty bytes, but exactly at the bound
    let name: String = "é".repeat(20);
    assert_eq!(dir.create_linktree_account(&alice, &name), Ok(()));
    let over: String = "é".repeat(21);
    assert_eq!(
        dir.create_linktree_account(&alice, &over),
        Err(ErrorCode::HandleTooLong)
    );
}
