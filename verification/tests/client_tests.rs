use c2pa_lib::client::AppState;
use c2pa_lib::client::AssertionBuilder;
use c2pa_lib::client::C2paSignerMaster;
use c2pa_lib::client::CustomInfo;
use c2pa_lib::client::FileManager;
use c2pa_lib::signer::C2paSigner;

#[test]
fn builders_and_signers_construct() {
    let _builder = AssertionBuilder::new(String::from("in.json"), String::from("out.json"));
    let _default_builder = AssertionBuilder::default();
    let _signer = C2paSigner::new(String::from("es256.pub"), String::from("es256.pem"));
    let _default_signer = C2paSigner::default();
    let _master = C2paSignerMaster::default();
}

#[test]
fn custom_info_carries_optional_fields() {
    let info = CustomInfo {
        author: String::from("T. Takahashi"),
        location: Some(String::from("Tokyo, Japan")),
        comment: None,
    };
    assert_eq!(info.author, "T. Takahashi");
    assert_eq!(info.location.as_deref(), Some("Tokyo, Japan"));
    assert!(info.comment.is_none());
}

#[test]
fn app_state_counts_calls() {
    let mut state = AppState { counter: 0 };
    state.increment();
    state.increment();
    assert_eq!(state.counter, 2);
}

#[test]
fn file_extension_matching() {
    let manager = FileManager;
    assert!(manager.has_extension("photo.jpg", "jpg"));
    assert!(manager.has_extension("dir.name/photo.mp4", "mp4"));
    assert!(!manager.has_extension("photo.jpeg", "jpg"));
    assert!(!manager.has_extension("photo.jpg", "jpeg"));
    assert!(!manager.has_extension(".jpg", "jpg"));
    assert!(!manager.has_extension("jpg", "jpg"));
    assert!(!manager.has_extension("photojpg", "jpg"));
}
