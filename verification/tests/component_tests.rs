use contacts_backend::access::{can_mutate, can_read};
use contacts_backend::contact::Contact;
use contacts_backend::contact_store::ContactStore;
use contacts_backend::data::contact::Contact as DraftContact;
use contacts_backend::data::counter::{Counter, DecrementCounter, IncrementCounter};
use contacts_backend::data::new_contact::NewContact;
use contacts_backend::data::new_user::NewUser;
use contacts_backend::data::user::User;
use contacts_backend::directory::{Directory, DirectoryError};
use contacts_backend::id_list::{contains_id, removed_ids};
use contacts_backend::response::httpish::BasicResponse;
use contacts_backend::user_directory::UserDirectory;
use contacts_backend::username_index::UsernameIndex;

fn account(name: &str) -> NewUser {
    NewUser {
        username: name.to_string(),
    }
}

fn contact(name: &str, email: &str, phone: &str) -> NewContact {
    NewContact {
        name: name.to_string(),
        email: email.to_string(),
        phone: phone.to_string(),
    }
}

#[test]
fn counter_moves_both_ways() {
    let mut counter = Counter::new();
    assert_eq!(counter.get_count(), 0);
    assert_eq!(counter.increment(), 1);
    assert_eq!(counter.increment(), 2);
    assert_eq!(counter.decrement(), 1);
    assert_eq!(counter.get_count(), 1);
}

#[test]
fn one_way_counters() {
    let mut up = IncrementCounter::new();
    assert_eq!(up.get_count(), 0);
    assert_eq!(up.increment(), 1);
    assert_eq!(up.increment(), 2);
    assert_eq!(up.get_count(), 2);

    let down = DecrementCounter::new();
    assert_eq!(down.get_count(), 0);
    let mut seeded = Counter::new();
    seeded.increment();
    assert_eq!(seeded.decrement(), 0);
}

#[test]
fn draft_contact_takes_id_from_counter() {
    let mut counter = Counter::new();
    let with_id = DraftContact::new(
        "Bob".to_string(),
        "bob@x.com".to_string(),
        "555-1000".to_string(),
        Some(&mut counter),
    );
    assert_eq!(counter.get_count(), 1);
    assert_eq!(with_id.name, "Bob");

    let without_id = DraftContact::new(
        "Eve".to_string(),
        "eve@x.com".to_string(),
        "555-2000".to_string(),
        None,
    );
    assert_eq!(counter.get_count(), 1);
    assert_eq!(without_id.email, "eve@x.com");
}

#[test]
fn access_control_is_by_list_membership() {
    let owned = vec![1u64, 2, 3];
    let shared = vec![7u64];
    assert!(can_read(2, &owned, &shared));
    assert!(can_read(7, &owned, &shared));
    assert!(!can_read(9, &owned, &shared));
    assert!(can_mutate(3, &owned));
    assert!(!can_mutate(7, &owned));
    assert!(!can_mutate(9, &owned));
}

#[test]
fn id_list_operations() {
    let ids = vec![4u64, 5, 6, 5];
    assert!(contains_id(&ids, 5));
    assert!(!contains_id(&ids, 9));
    assert_eq!(removed_ids(&ids, 5), vec![4, 6]);
    assert_eq!(removed_ids(&ids, 9), vec![4, 5, 6, 5]);
    assert_eq!(removed_ids(&Vec::<u64>::new(), 1), Vec::<u64>::new());
}

#[test]
fn user_directory_lookup_and_insert() {
    let mut table = UserDirectory::new();
    let a: Vec<u8> = vec![1];
    assert!(!table.contains(&a));
    assert!(table.get(&a).is_none());
    table.insert(
        a.clone(),
        User {
            username: "alice".to_string(),
            contacts: vec![],
            shared_contacts: vec![],
        },
    );
    assert!(table.contains(&a));
    assert_eq!(table.get(&a).unwrap().username, "alice");
    // Inserting again overwrites: this table is mechanism, not policy.
    table.insert(
        a.clone(),
        User {
            username: "alicia".to_string(),
            contacts: vec![3],
            shared_contacts: vec![],
        },
    );
    assert_eq!(table.get(&a).unwrap().username, "alicia");
}

#[test]
fn username_index_reserve_and_release() {
    let mut index = UsernameIndex::new();
    let name = "alice".to_string();
    let a: Vec<u8> = vec![1];
    assert!(!index.contains(&name));
    assert!(index.lookup(&name).is_none());
    index.reserve(name.clone(), a.clone());
    assert!(index.contains(&name));
    assert_eq!(index.lookup(&name).unwrap(), &a);
    index.release(&name);
    assert!(!index.contains(&name));
}

#[test]
fn contact_store_allocate_put_get_delete() {
    let mut store = ContactStore::new();
    assert_eq!(store.len(), 0);
    let id0 = store.allocate_id();
    let id1 = store.allocate_id();
    assert_eq!(id0, 0);
    assert_eq!(id1, 1);
    store.put(Contact {
        id: id0,
        name: "Bob".to_string(),
        email: "bob@x.com".to_string(),
        phone: "555-1000".to_string(),
    });
    assert_eq!(store.len(), 1);
    assert!(store.contains(id0));
    assert_eq!(store.get(id0).unwrap().name, "Bob");
    assert!(store.get(id1).is_none());
    store.delete(id0);
    assert_eq!(store.len(), 0);
    assert!(store.get(id0).is_none());
    // Deletion does not move the allocator back.
    assert_eq!(store.allocate_id(), 2);
}

#[test]
fn whoami_reports_the_username() {
    let mut dir = Directory::new();
    let a: Vec<u8> = vec![1];
    assert_eq!(dir.whoami(&a), None);
    assert_eq!(dir.create_account(&a, account("alice")), Ok(()));
    assert_eq!(dir.whoami(&a), Some("alice".to_string()));
}

#[test]
fn unknown_contact_and_recipient_errors() {
    let mut dir = Directory::new();
    let a: Vec<u8> = vec![1];
    let b: Vec<u8> = vec![2];
    assert_eq!(dir.create_account(&a, account("alice")), Ok(()));
    assert_eq!(dir.create_account(&b, account("bob")), Ok(()));
    let cid = dir.create_contact(&a, contact("Bob", "bob@x.com", "555-1000")).unwrap();
    let bob_name = "bob".to_string();
    let nobody = "nobody".to_string();

    // A contact id the store has never seen.
    assert_eq!(
        dir.edit_contact(&a, 77, contact("X", "x@x.com", "555-0000")),
        Err(DirectoryError::ContactNotFound)
    );
    assert_eq!(dir.delete_contact(&a, 77), Err(DirectoryError::ContactNotFound));
    assert_eq!(dir.share_contact(&a, 77, &bob_name), Err(DirectoryError::ContactNotFound));
    assert!(matches!(
        dir.get_contact(&a, 77),
        Err(DirectoryError::ContactNotFound)
    ));

    // A recipient username nobody registered.
    assert_eq!(
        dir.share_contact(&a, cid, &nobody),
        Err(DirectoryError::RecipientNotFound)
    );
    assert_eq!(
        dir.revoke_shared_contact(&a, cid, &nobody),
        Err(DirectoryError::RecipientNotFound)
    );

    // Revoking a share that was never granted.
    assert_eq!(
        dir.revoke_shared_contact(&a, cid, &bob_name),
        Err(DirectoryError::NotShared)
    );

    // A caller without an account.
    let stranger: Vec<u8> = vec![9];
    assert!(matches!(
        dir.get_contacts(&stranger),
        Err(DirectoryError::NoAccount)
    ));
    assert_eq!(dir.get_shared_ids(&stranger), Err(DirectoryError::NoAccount));
    assert_eq!(dir.delete_contact(&stranger, cid), Err(DirectoryError::NoAccount));

    // A non-owner with an account may not delete or share another's contact.
    assert_eq!(dir.delete_contact(&b, cid), Err(DirectoryError::Forbidden));
    assert_eq!(dir.share_contact(&b, cid, &bob_name), Err(DirectoryError::Forbidden));
}

#[test]
fn sharing_twice_is_idempotent() {
    let mut dir = Directory::new();
    let a: Vec<u8> = vec![1];
    let b: Vec<u8> = vec![2];
    assert_eq!(dir.create_account(&a, account("alice")), Ok(()));
    assert_eq!(dir.create_account(&b, account("bob")), Ok(()));
    let cid = dir.create_contact(&a, contact("Bob", "bob@x.com", "555-1000")).unwrap();
    let bob_name = "bob".to_string();
    assert_eq!(dir.share_contact(&a, cid, &bob_name), Ok(()));
    assert_eq!(dir.share_contact(&a, cid, &bob_name), Ok(()));
    assert_eq!(dir.get_shared_ids(&b).unwrap(), vec![cid]);
}

#[test]
fn responses_carry_the_endpoint_messages() {
    let ok: Result<(), DirectoryError> = Ok(());
    match BasicResponse::for_account_creation(&ok) {
        BasicResponse::Success(m) => assert_eq!(m, "Account created successfully"),
        _ => panic!("expected a success response"),
    }
    match BasicResponse::for_account_creation(&Err(DirectoryError::AlreadyHasAccount)) {
        BasicResponse::Conflict(m) => assert_eq!(m, "User already has an account"),
        _ => panic!("expected a conflict response"),
    }
    match BasicResponse::for_account_creation(&Err(DirectoryError::UsernameTaken)) {
        BasicResponse::Conflict(m) => assert_eq!(m, "Username already taken"),
        _ => panic!("expected a conflict response"),
    }
    match BasicResponse::for_contact_creation(&Ok(0)) {
        BasicResponse::Success(m) => assert_eq!(m, "Contact created successfully"),
        _ => panic!("expected a success response"),
    }
    assert!(matches!(
        BasicResponse::for_contact_creation(&Err(DirectoryError::NoAccount)),
        BasicResponse::Unauthorized
    ));
    match BasicResponse::for_contact_listing(true) {
        BasicResponse::Success(m) => assert_eq!(m, "Contacts retrieved successfully"),
        _ => panic!("expected a success response"),
    }
    assert!(matches!(
        BasicResponse::for_contact_listing(false),
        BasicResponse::Unauthorized
    ));
}

#[test]
fn legacy_record_shapes_hold_their_fields() {
    let record = Contact {
        id: 4,
        name: "Bob".to_string(),
        email: "bob@x.com".to_string(),
        phone: "555-1000".to_string(),
    };
    let copy = record.clone();
    assert_eq!(copy.id, 4);
    assert_eq!(copy.name, record.name);

    let inline_user = contacts_backend::user::User {
        username: "alice".to_string(),
        contacts: vec![record],
        shared_contacts: vec![7],
    };
    assert_eq!(inline_user.contacts.len(), 1);
    assert_eq!(inline_user.shared_contacts, vec![7]);
}
