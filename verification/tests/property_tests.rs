use contacts_backend::data::new_contact::NewContact;
use contacts_backend::data::new_user::NewUser;
use contacts_backend::directory::{Directory, DirectoryError};
use contacts_backend::response::httpish::BasicResponse;

fn account(name: &str) -> NewUser {
    NewUser {
        username: name.to_string(),
    }
}

fn contact(name: &str, email: &str, phone: &str) -> NewContact {
    NewContact {
        name: name.to_string(),
        email: email.to_string(),
        phone: phone.to_string(),
    }
}

/// Creating an account twice for the same identity fails the second time
/// with `AlreadyHasAccount`, and the state is unchanged.
#[test]
fn duplicate_account_is_refused() {
    let mut dir = Directory::new();
    let a: Vec<u8> = vec![1];
    assert_eq!(dir.create_account(&a, account("alice")), Ok(()));
    let id = dir.create_contact(&a, contact("Bob", "bob@x.com", "555-1000")).unwrap();

    assert_eq!(
        dir.create_account(&a, account("alice2")),
        Err(DirectoryError::AlreadyHasAccount)
    );
    // The account is untouched: same username, same contacts.
    assert_eq!(dir.whoami(&a), Some("alice".to_string()));
    let listed = dir.get_contacts(&a).unwrap();
    assert_eq!(listed.len(), 1);
    assert_eq!(listed[0].id, id);
    // "alice2" is still free for someone else.
    let b: Vec<u8> = vec![2];
    assert_eq!(dir.create_account(&b, account("alice2")), Ok(()));
}

/// Two distinct identities cannot register the same username: the second
/// call fails with `UsernameTaken` and leaves the second identity without
/// an account.
#[test]
fn duplicate_username_is_refused() {
    let mut dir = Directory::new();
    let a: Vec<u8> = vec![1];
    let b: Vec<u8> = vec![2];
    assert_eq!(dir.create_account(&a, account("alice")), Ok(()));
    assert_eq!(
        dir.create_account(&b, account("alice")),
        Err(DirectoryError::UsernameTaken)
    );
    assert_eq!(dir.whoami(&b), None);
    assert_eq!(dir.whoami(&a), Some("alice".to_string()));
}

/// After a successful contact creation the owner's listing includes
/// exactly the new contact, and reading the id back returns a record equal
/// to what was submitted.
#[test]
fn created_contact_is_listed_and_readable() {
    let mut dir = Directory::new();
    let a: Vec<u8> = vec![1];
    assert_eq!(dir.create_account(&a, account("alice")), Ok(()));
    assert!(dir.get_contacts(&a).unwrap().is_empty());

    let first = dir.create_contact(&a, contact("Bob", "bob@x.com", "555-1000")).unwrap();
    let second = dir
        .create_contact(&a, contact("Eve", "eve@x.com", "555-2000"))
        .unwrap();
    assert_eq!(first, 0);
    assert_eq!(second, 1);

    let listed = dir.get_contacts(&a).unwrap();
    assert_eq!(listed.len(), 2);
    assert_eq!(listed[0].id, first);
    assert_eq!(listed[0].name, "Bob");
    assert_eq!(listed[1].id, second);
    assert_eq!(listed[1].name, "Eve");

    let read = dir.get_contact(&a, first).unwrap();
    assert_eq!(read.id, first);
    assert_eq!(read.name, "Bob");
    assert_eq!(read.email, "bob@x.com");
    assert_eq!(read.phone, "555-1000");
}

/// After a deletion the id is gone from the owner's listing, from every
/// recipient's shared list, and from the store.
#[test]
fn deletion_cascades_everywhere() {
    let mut dir = Directory::new();
    let a: Vec<u8> = vec![1];
    let b: Vec<u8> = vec![2];
    let c: Vec<u8> = vec![3];
    assert_eq!(dir.create_account(&a, account("alice")), Ok(()));
    assert_eq!(dir.create_account(&b, account("bob")), Ok(()));
    assert_eq!(dir.create_account(&c, account("carol")), Ok(()));

    let cid = dir.create_contact(&a, contact("Bob", "bob@x.com", "555-1000")).unwrap();
    let keeper = dir
        .create_contact(&a, contact("Eve", "eve@x.com", "555-2000"))
        .unwrap();
    let bob_name = "bob".to_string();
    let carol_name = "carol".to_string();
    assert_eq!(dir.share_contact(&a, cid, &bob_name), Ok(()));
    assert_eq!(dir.share_contact(&a, cid, &carol_name), Ok(()));
    assert_eq!(dir.share_contact(&a, keeper, &bob_name), Ok(()));

    assert_eq!(dir.delete_contact(&a, cid), Ok(()));

    let listed: Vec<u64> = dir.get_contacts(&a).unwrap().iter().map(|r| r.id).collect();
    assert_eq!(listed, vec![keeper]);
    assert_eq!(dir.get_shared_ids(&b).unwrap(), vec![keeper]);
    assert_eq!(dir.get_shared_ids(&c).unwrap(), Vec::<u64>::new());
    assert!(matches!(
        dir.get_contact(&a, cid),
        Err(DirectoryError::ContactNotFound)
    ));
    // The freed id is never handed out again.
    let next = dir.create_contact(&a, contact("New", "new@x.com", "555-3000")).unwrap();
    assert_eq!(next, 2);
}

/// Sharing and then revoking is a round trip: the recipient's shared list
/// returns to its pre-share state.
#[test]
fn share_then_revoke_round_trip() {
    let mut dir = Directory::new();
    let a: Vec<u8> = vec![1];
    let b: Vec<u8> = vec![2];
    assert_eq!(dir.create_account(&a, account("alice")), Ok(()));
    assert_eq!(dir.create_account(&b, account("bob")), Ok(()));
    let early = dir.create_contact(&a, contact("Eve", "eve@x.com", "555-2000")).unwrap();
    let cid = dir.create_contact(&a, contact("Bob", "bob@x.com", "555-1000")).unwrap();
    let bob_name = "bob".to_string();
    assert_eq!(dir.share_contact(&a, early, &bob_name), Ok(()));

    let before = dir.get_shared_ids(&b).unwrap();
    assert_eq!(dir.share_contact(&a, cid, &bob_name), Ok(()));
    assert_eq!(dir.get_shared_ids(&b).unwrap(), vec![early, cid]);
    assert_eq!(dir.revoke_shared_contact(&a, cid, &bob_name), Ok(()));
    assert_eq!(dir.get_shared_ids(&b).unwrap(), before);
}

/// The account-creation scenario: "alice" is taken by A, refused to B as a
/// conflict; A's first contact gets id 0 and is listed; B cannot create
/// contacts without an account.
#[test]
fn scenario_accounts_and_first_contact() {
    let mut dir = Directory::new();
    let a: Vec<u8> = vec![0xA];
    let b: Vec<u8> = vec![0xB];
    assert_eq!(dir.create_account(&a, account("alice")), Ok(()));
    let refused =
        BasicResponse::for_account_creation(&dir.create_account(&b, account("alice")));
    assert!(matches!(refused, BasicResponse::Conflict(_)));

    let created = dir.create_contact(&a, contact("Bob", "bob@x.com", "555-1000"));
    assert_eq!(created, Ok(0));
    let listed = dir.get_contacts(&a).unwrap();
    assert_eq!(listed.len(), 1);
    assert_eq!(listed[0].id, 0);
    assert_eq!(listed[0].name, "Bob");
    assert_eq!(listed[0].email, "bob@x.com");
    assert_eq!(listed[0].phone, "555-1000");

    let no_account = dir.create_contact(&b, contact("X", "x@x.com", "555-0000"));
    assert_eq!(no_account, Err(DirectoryError::NoAccount));
    assert!(matches!(
        BasicResponse::for_contact_creation(&no_account),
        BasicResponse::Unauthorized
    ));
}

/// Contact fields are free-form: empty strings are accepted and stored
/// as given.
#[test]
fn empty_contact_fields_are_accepted() {
    let mut dir = Directory::new();
    let a: Vec<u8> = vec![1];
    assert_eq!(dir.create_account(&a, account("alice")), Ok(()));
    let cid = dir.create_contact(&a, contact("", "", "")).unwrap();
    let read = dir.get_contact(&a, cid).unwrap();
    assert_eq!(read.name, "");
    assert_eq!(read.email, "");
    assert_eq!(read.phone, "");
}

/// The sharing scenario: a shared contact shows up in the recipient's
/// shared list and is readable there, but only the owner may edit it.
#[test]
fn scenario_share_is_read_only() {
    let mut dir = Directory::new();
    let a: Vec<u8> = vec![0xA];
    let c: Vec<u8> = vec![0xC];
    assert_eq!(dir.create_account(&a, account("alice")), Ok(()));
    assert_eq!(dir.create_account(&c, account("carol")), Ok(()));
    let cid = dir.create_contact(&a, contact("Bob", "bob@x.com", "555-1000")).unwrap();
    assert_eq!(cid, 0);
    let carol_name = "carol".to_string();
    assert_eq!(dir.share_contact(&a, cid, &carol_name), Ok(()));

    // The listing stays owner-only, but C's shared list holds id 0 and C
    // may read the record.
    assert!(dir.get_contacts(&c).unwrap().is_empty());
    assert_eq!(dir.get_shared_ids(&c).unwrap(), vec![0]);
    assert_eq!(dir.get_contact(&c, cid).unwrap().name, "Bob");

    // C attempting an edit is forbidden; A succeeds.
    assert_eq!(
        dir.edit_contact(&c, cid, contact("Mallory", "m@x.com", "555-9999")),
        Err(DirectoryError::Forbidden)
    );
    assert_eq!(dir.get_contact(&a, cid).unwrap().name, "Bob");
    assert_eq!(
        dir.edit_contact(&a, cid, contact("Robert", "robert@x.com", "555-1000")),
        Ok(())
    );
    let edited = dir.get_contact(&c, cid).unwrap();
    assert_eq!(edited.id, cid);
    assert_eq!(edited.name, "Robert");
    assert_eq!(edited.email, "robert@x.com");
}
