use ciruela::keys::read_public_keys;
use ciruela::signatures::{ImageId, SignatureEntry, State};
use ciruela::state_files::is_listed_file;
use ciruela::state_scan::{is_stale_state_file, str_less, ScannedStates};

fn state(img: u8, signed: bool) -> State {
    State {
        image: ImageId(vec![img]),
        signatures: if signed {
            vec![SignatureEntry { timestamp: 1, signature: vec![img] }]
        } else {
            vec![]
        },
    }
}

fn images(v: &[(String, State)]) -> Vec<(String, u8)> {
    v.iter().map(|(n, s)| (n.clone(), s.image.0[0])).collect()
}

#[test]
fn listed_files() {
    assert!(is_listed_file("v1.state", ".state"));
    assert!(!is_listed_file(".v1.state", ".state"));
    assert!(!is_listed_file("v1.yaml", ".state"));
    assert!(is_listed_file("v1.new.state", ".state"));
}

#[test]
fn stale_new_state_files() {
    let writing = vec![String::from("v2")];
    assert!(is_stale_state_file("v1.new.state", &writing));
    assert!(!is_stale_state_file("v2.new.state", &writing));
    assert!(!is_stale_state_file("v1.state", &writing));
}

#[test]
fn string_order() {
    assert!(str_less("a", "b"));
    assert!(str_less("a", "ab"));
    assert!(!str_less("ab", "a"));
    assert!(!str_less("a", "a"));
    assert!(str_less("Z", "a"));
    assert!(str_less("", "a"));
}

#[test]
fn scanned_states_prefer_replacement() {
    let mut s = ScannedStates::new();
    assert!(s.record("v2.state", state(1, true)));
    assert!(s.record("v2.new.state", state(2, true)));
    assert!(s.record("v2.state", state(3, true)));
    assert!(s.record("v1.state", state(4, true)));
    assert!(!s.record("v0.state", state(5, false)));
    assert!(s.record("v3.new.state", state(6, true)));
    let v = s.into_sorted();
    assert_eq!(
        images(&v),
        vec![(String::from("v1"), 4), (String::from("v2"), 2), (String::from("v3"), 6)]
    );
}

const ED25519: &str =
    "ssh-ed25519 AAAAC3NzaC1lZDI1NTE5AAAAIAABAgMEBQYHCAkKCwwNDg8QERITFBUWFxgZGhscHR4f test@host";

#[test]
fn public_keys_until_bad_line() {
    let lines: Vec<String> = vec![
        String::from("# master key"),
        String::from(""),
        format!("  {}  ", ED25519),
        String::from("ssh-dss AAAAB3NzaC1kc3MAAAADYWJj"),
        String::from(ED25519),
    ];
    let mut keys = Vec::new();
    assert_eq!(read_public_keys(&lines, &mut keys), Some(3));
    assert_eq!(keys.len(), 1);
    assert_eq!(keys[0].to_string(), "ssh-ed25519 AAAAC3NzaC1lZDI1NTE5AAAAIAABAgMEBQYHCAkKCwwNDg8QERITFBUWFxgZGhscHR4f");
}

#[test]
fn public_keys_all_good() {
    let lines: Vec<String> = vec![String::from(ED25519), String::from("#"), String::from(ED25519)];
    let mut keys = Vec::new();
    assert_eq!(read_public_keys(&lines, &mut keys), None);
    assert_eq!(keys.len(), 2);
    assert_eq!(read_public_keys(&vec![String::from("garbage")], &mut keys), Some(0));
    assert_eq!(keys.len(), 2);
}

#[test]
fn public_keys_come_in_line_order() {
    let nines = "ssh-ed25519 AAAAC3NzaC1lZDI1NTE5AAAAIAkJCQkJCQkJCQkJCQkJCQkJCQkJCQkJCQkJCQkJCQkJ";
    let lines: Vec<String> = vec![String::from(nines), String::from(ED25519)];
    let mut keys = Vec::new();
    assert_eq!(read_public_keys(&lines, &mut keys), None);
    assert_eq!(keys.len(), 2);
    assert_eq!(keys[0].to_string(), nines);
    assert!(keys[1].to_string().starts_with("ssh-ed25519 AAAAC3NzaC1lZDI1NTE5AAAAIAABAgME"));
    let mut more = vec![keys[1].clone()];
    assert_eq!(read_public_keys(&vec![String::from(nines)], &mut more), None);
    assert_eq!(more[1].to_string(), nines);
    assert_eq!(more[0].to_string(), keys[1].to_string());
}
