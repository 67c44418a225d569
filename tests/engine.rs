use pmk_precompute::engine::{derive_all, network_keys, ResultSet};
use pmk_precompute::kdf;

fn strings(items: &[&str]) -> Vec<String> {
    items.iter().map(|s| s.to_string()).collect()
}

#[test]
fn home_wifi_scenario() {
    let networks = strings(&["HomeWiFi"]);
    let passwords = strings(&["password1", "letmein"]);
    let first = derive_all(&networks, &passwords).drain();
    assert_eq!(first.len(), 2);
    assert_ne!(first[0], first[1]);
    for k in &first {
        assert_eq!(k.len(), 32);
    }
    let mut again = derive_all(&networks, &passwords).drain();
    let mut sorted = first.clone();
    sorted.sort();
    again.sort();
    assert_eq!(sorted, again);
}

#[test]
fn run_yields_one_key_per_pair() {
    let networks = strings(&["a", "b", "c"]);
    let passwords = strings(&["1", "2", "3", "4"]);
    let keys = derive_all(&networks, &passwords).drain();
    assert_eq!(keys.len(), 12);
    let mut i = 0;
    for n in &networks {
        for p in &passwords {
            assert_eq!(keys[i], kdf::derive(p, n));
            i += 1;
        }
    }
}

#[test]
fn duplicate_networks_give_duplicate_work() {
    let networks = strings(&["same", "same"]);
    let passwords = strings(&["pw"]);
    let keys = derive_all(&networks, &passwords).drain();
    assert_eq!(keys.len(), 2);
    assert_eq!(keys[0], keys[1]);
}

#[test]
fn no_networks_gives_no_keys() {
    let r = derive_all(&Vec::new(), &strings(&["a", "b"]));
    assert!(r.is_empty());
    assert_eq!(r.drain(), Vec::<String>::new());
}

#[test]
fn no_passwords_gives_no_keys() {
    let r = derive_all(&strings(&["net"]), &Vec::new());
    assert_eq!(r.len(), 0);
    assert!(r.drain().is_empty());
}

#[test]
fn unit_of_work_keeps_password_order() {
    let passwords = strings(&["alpha", "beta", "gamma"]);
    let keys = network_keys("Office", &passwords);
    assert_eq!(keys.len(), 3);
    for (k, p) in keys.iter().zip(passwords.iter()) {
        assert_eq!(*k, kdf::derive(p, "Office"));
    }
}

#[test]
fn result_set_appends_in_order() {
    let mut r = ResultSet::new();
    assert!(r.is_empty());
    r.append("x".to_string());
    r.append("y".to_string());
    r.append("x".to_string());
    assert_eq!(r.len(), 3);
    assert_eq!(r.drain(), strings(&["x", "y", "x"]));
}
