use adedge::accounts::public_register;
use adedge::error::ServiceError;
use adedge::objects::{
    remove_global_by_filename, remove_global_by_id, remove_owned_by_filename, remove_owned_by_id,
};
use adedge::store::{ImagesJson, SettingsJson, UsersJson};
use adedge::upload::{delete_target_name, finalize_upload};

fn setup() -> (ImagesJson, UsersJson) {
    let mut users = UsersJson { users: vec![] };
    public_register(&mut users, &SettingsJson::new(), "alice", "a@x.com", "secret1", 0).unwrap();
    public_register(&mut users, &SettingsJson::new(), "bob", "b@x.com", "secret1", 0).unwrap();
    (ImagesJson { images: vec![] }, users)
}

fn count(v: &[adedge::store::ImageMeta], id: &str) -> usize {
    v.iter().filter(|m| m.id == id).count()
}

#[test]
fn upload_then_delete_keeps_collections_in_step() {
    let (mut images, mut users) = setup();
    let (url, del) = finalize_upload(
        &mut images, &mut users, "id-1", "1-u-cat.png", "cat.png", 10, "http://h", 5, Some("alice"),
    );
    assert_eq!(url, "http://h/i/1-u-cat.png");
    assert_eq!(del, "http://h/api/images/id-1");
    assert_eq!(count(&images.images, "id-1"), 1);
    assert_eq!(count(&users.users[0].images, "id-1"), 1);
    assert_eq!(count(&users.users[1].images, "id-1"), 0);
    assert_eq!(images.images[0].id, users.users[0].images[0].id);
    assert_eq!(images.images[0].owner.as_deref(), Some("alice"));
    assert_eq!(images.images[0].size, 10);
    assert_eq!(images.images[0].uploaded_at, 5);

    let removed = remove_owned_by_id(&mut users, "alice", "id-1").unwrap();
    assert_eq!(removed.filename, "1-u-cat.png");
    remove_global_by_id(&mut images, "id-1");
    assert_eq!(count(&images.images, "id-1"), 0);
    assert_eq!(count(&users.users[0].images, "id-1"), 0);
}

#[test]
fn delete_by_id_of_other_owner_is_not_found() {
    let (mut images, mut users) = setup();
    finalize_upload(&mut images, &mut users, "id-2", "f", "f", 1, "http://h", 0, Some("alice"));
    assert_eq!(remove_owned_by_id(&mut users, "bob", "id-2").err(), Some(ServiceError::NotFound));
    assert_eq!(remove_owned_by_id(&mut users, "ghost", "id-2").err(), Some(ServiceError::NotFound));
    assert_eq!(count(&users.users[0].images, "id-2"), 1);
}

#[test]
fn unowned_upload_touches_only_global() {
    let (mut images, mut users) = setup();
    finalize_upload(&mut images, &mut users, "id-3", "g", "g", 1, "http://h/", 0, None);
    assert_eq!(images.images.len(), 1);
    assert_eq!(images.images[0].url, "http://h/i/g");
    assert!(users.users.iter().all(|u| u.images.is_empty()));
}

#[test]
fn url_of_stored_name_is_percent_encoded() {
    let (mut images, mut users) = setup();
    let (url, _) = finalize_upload(&mut images, &mut users, "i", "a b", "a b", 1, "http://h", 0, None);
    assert_eq!(url, "http://h/i/a%20b");
}

#[test]
fn delete_by_filename_everywhere() {
    let (mut images, mut users) = setup();
    finalize_upload(&mut images, &mut users, "a1", "one.png", "one.png", 1, "http://h", 0, Some("alice"));
    finalize_upload(&mut images, &mut users, "a2", "two.png", "two.png", 1, "http://h", 0, Some("alice"));
    let name = delete_target_name("../../one.png").unwrap();
    assert_eq!(name, "one.png");
    remove_global_by_filename(&mut images, &name);
    remove_owned_by_filename(&mut users, &name);
    assert_eq!(images.images.len(), 1);
    assert_eq!(images.images[0].filename, "two.png");
    assert_eq!(users.users[0].images.len(), 1);
    assert_eq!(users.users[0].images[0].filename, "two.png");
    assert!(delete_target_name("").is_err());
}

#[test]
fn upload_meta_fields() {
    let m = adedge::upload::build_upload_meta("id9", "s.png", "orig name.png", 77, "https://o/", 3, Some("bob"));
    assert_eq!(m.id, "id9");
    assert_eq!(m.filename, "s.png");
    assert_eq!(m.originalname, "orig name.png");
    assert_eq!(m.size, 77);
    assert_eq!(m.url, "https://o/i/s.png");
    assert_eq!(m.uploaded_at, 3);
    assert_eq!(m.owner.as_deref(), Some("bob"));
    let n = adedge::upload::build_upload_meta_now("s.png", "o", 1, "http://h", None);
    assert_eq!(n.url, "http://h/i/s.png");
    assert!(n.owner.is_none());
    assert_eq!(n.id.len(), 36);
}

#[test]
fn deleting_an_account_cascades_to_its_objects() {
    let (mut images, mut users) = setup();
    finalize_upload(&mut images, &mut users, "b1", "b1.png", "b1.png", 1, "http://h", 0, Some("bob"));
    finalize_upload(&mut images, &mut users, "a1", "a1.png", "a1.png", 1, "http://h", 0, Some("alice"));
    finalize_upload(&mut images, &mut users, "b2", "b2.png", "b2.png", 1, "http://h", 0, Some("bob"));
    finalize_upload(&mut images, &mut users, "n1", "n1.png", "n1.png", 1, "http://h", 0, None);
    assert_eq!(adedge::objects::admin_users_delete(&mut users, "admin", "bob"), Ok(()));
    let names = adedge::objects::remove_global_by_owner(&mut images, "bob");
    assert_eq!(names, vec!["b1.png".to_string(), "b2.png".to_string()]);
    let left: Vec<&str> = images.images.iter().map(|m| m.id.as_str()).collect();
    assert_eq!(left, vec!["a1", "n1"]);
    assert!(users.users.iter().all(|u| u.username != "bob"));
}

#[test]
fn non_ascii_names_are_percent_encoded_by_bytes() {
    assert_eq!(adedge::upload::object_url("http://h", "é~x.png"), "http://h/i/%C3%A9~x.png");
}

#[test]
fn delete_account_removes_the_account_and_its_objects() {
    let (mut images, mut users) = setup();
    finalize_upload(&mut images, &mut users, "b1", "b1.png", "b1.png", 1, "http://h", 0, Some("bob"));
    finalize_upload(&mut images, &mut users, "a1", "a1.png", "a1.png", 1, "http://h", 0, Some("alice"));
    assert_eq!(
        adedge::objects::delete_account(&mut users, &mut images, "bob", "alice"),
        Err(ServiceError::AuthorizationDenied)
    );
    assert_eq!(images.images.len(), 2);
    let names = adedge::objects::delete_account(&mut users, &mut images, "admin", "bob").unwrap();
    assert_eq!(names, vec!["b1.png".to_string()]);
    assert_eq!(images.images.len(), 1);
    assert_eq!(images.images[0].id, "a1");
    assert!(users.users.iter().all(|u| u.username != "bob"));
    assert_eq!(
        adedge::objects::delete_account(&mut users, &mut images, "admin", "bob"),
        Err(ServiceError::NotFound)
    );
}

#[test]
fn delete_names_follow_path_rules() {
    assert_eq!(delete_target_name("a/b/").unwrap(), "b");
    assert_eq!(delete_target_name("a/.").unwrap(), "a");
    assert_eq!(delete_target_name("a/..").unwrap(), "");
    assert_eq!(delete_target_name("/").unwrap(), "");
    assert_eq!(delete_target_name(".").unwrap(), "");
}
