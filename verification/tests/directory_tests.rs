use candid::Principal;
use contacts_backend::data::new_contact::NewContact;
use contacts_backend::data::new_user::NewUser;
use contacts_backend::directory::Directory;
use contacts_backend::response::httpish::BasicResponse;

fn identity_of(principal: Principal) -> Vec<u8> {
    principal.as_slice().to_vec()
}

fn john_doe() -> NewContact {
    NewContact {
        name: "John Doe".to_string(),
        email: "johndoe@example.com".to_string(),
        phone: "123-456-7890".to_string(),
    }
}

/// Testing the create_account function and its adherence to the requirements.
/// The requirements are:
/// 1. A user can create an account with a unique username.
/// 2. A user cannot create an account with a username that already exists.
/// 3. A user cannot create an account if they already have one.
#[test]
fn test_create_account() {
    // Set up 4 users, 3 with unique usernames and 1 duplicate username.
    let user1 = NewUser {
        username: "user1".to_string(),
    };
    let user2 = NewUser {
        username: "user2".to_string(),
    };
    let user3 = NewUser {
        username: "user3".to_string(),
    };
    let user1_duplicate = NewUser {
        username: "user1".to_string(),
    };

    let mut dir = Directory::new();

    // Set up 3 distinct mock principals for testing.
    let principal1 = identity_of(Principal::from_slice(&[0x01]));
    let principal2 = identity_of(Principal::from_slice(&[0x02]));
    let principal3 = identity_of(Principal::from_slice(&[0x03]));

    // Test creating a new account. (Requirement 1)
    println!("Creating account for principal1...");
    let first_account_create =
        BasicResponse::for_account_creation(&dir.create_account(&principal1, user1));
    assert!(
        matches!(first_account_create, BasicResponse::Success(_)),
        "First account creation failed when it should not have. Expected a `Success` response, but didn't get one."
    );

    // Test another user creates a new account with a different username. (Requirement 1)
    println!("Creating account for principal2...");
    let second_account_create =
        BasicResponse::for_account_creation(&dir.create_account(&principal2, user2));
    assert!(
        matches!(second_account_create, BasicResponse::Success(_)),
        "Second account creation failed when it should not have. Expected `Ok` but got `Err`."
    );

    // Test creating an account with a username that already exists. (Requirement 2)
    println!("Creating account for principal3 with an already claimed username...");
    let already_registered_username =
        BasicResponse::for_account_creation(&dir.create_account(&principal3, user1_duplicate));
    assert!(
        matches!(already_registered_username, BasicResponse::Conflict(_)),
        "Username should already be taken. Expected `Err` but got `Ok`."
    );

    // Test creating an account when user already has one. (Requirement 3)
    println!("Creating account for principal2 when they already have one...");
    let already_registered_user =
        BasicResponse::for_account_creation(&dir.create_account(&principal2, user3));
    assert!(
        matches!(already_registered_user, BasicResponse::Conflict(_)),
        "User should already have an account. Expected `Err` but got `Ok`."
    );
}

/// Testing the ability to create and retrieve contacts.
/// The requirements are:
/// 1. A user can create a contact.
/// 2. A user can retrieve their contacts.
/// 3. A user cannot retrieve contacts if they do not have an account.
/// 4. A user cannot create a contact if they do not have an account.
#[test]
fn test_create_and_retrieve_contacts() {
    // Set up a user and a contact.
    let new_contact = john_doe();

    let mut dir = Directory::new();

    // Set up a mock principal for testing.
    let principal = Principal::from_slice(&[0x04]);
    let identity = identity_of(principal);

    // Test creating a contact when the user does not have an account. (Requirement 4)
    println!("Creating contact for principal1 without an account...");
    let create_contact_no_account =
        BasicResponse::for_contact_creation(&dir.create_contact(&identity, john_doe()));
    assert!(
        matches!(create_contact_no_account, BasicResponse::Unauthorized),
        "User should not have been able to create a contact without an account. Expected `Unauthorized`."
    );

    // Test creating an account.
    println!("Ensuring principal has an account...");
    let user = NewUser {
        username: principal.to_text(),
    };
    let _ = dir.create_account(&identity, user);

    // Test creating a contact. (Requirement 1)
    println!("Creating contact for principal1...");
    let create_contact =
        BasicResponse::for_contact_creation(&dir.create_contact(&identity, john_doe()));
    assert!(
        matches!(create_contact, BasicResponse::Success(_)),
        "Contact creation failed when it should not have. Expected `Ok` but got `Err`."
    );

    // Test retrieving contacts. (Requirement 2)
    println!("Retrieving contacts for principal1...");
    let contacts = dir.get_contacts(&identity);
    assert!(
        matches!(
            BasicResponse::for_contact_listing(contacts.is_ok()),
            BasicResponse::Success(_)
        ),
        "Failed to retrieve contacts. Expected `Ok` but got `Err`."
    );

    // Test that contacts contain the created contact
    let retrieved_contacts = contacts.unwrap();
    println!("Number of retrieved contacts: {}", retrieved_contacts.len());
    assert!(
        retrieved_contacts.iter().any(|c| c.name == new_contact.name
            && c.email == new_contact.email
            && c.phone == new_contact.phone),
        "Retrieved contacts do not contain the created contact."
    );
}
