use abstract_ns::addr::Builder;
use abstract_ns::Address;

use ciruela::addresses::{pick_hosts, pick_unweighted_hosts, weights_fit};

fn addr(list: &[&str]) -> Address {
    Address::parse_list(list.iter()).unwrap()
}

#[test]
fn host_without_addresses_is_an_error() {
    assert_eq!(pick_hosts(&addr(&[])), Err(()));
}

#[test]
fn few_addresses_are_all_taken_in_order() {
    let a = addr(&["10.0.0.2:24783", "10.0.0.1:24783"]);
    assert_eq!(
        pick_hosts(&a).unwrap(),
        vec!["10.0.0.2:24783".to_string(), "10.0.0.1:24783".to_string()]
    );
    let three = addr(&["10.0.0.1:1", "10.0.0.2:1", "10.0.0.3:1"]);
    assert_eq!(pick_hosts(&three).unwrap().len(), 3);
}

#[test]
fn many_addresses_give_up_to_three_picks() {
    let all = ["10.0.0.1:1", "10.0.0.2:1", "10.0.0.3:1", "10.0.0.4:1", "10.0.0.5:1"];
    let a = addr(&all);
    for _ in 0..20 {
        let picked = pick_hosts(&a).unwrap();
        assert!(!picked.is_empty() && picked.len() <= 3);
        for p in &picked {
            assert!(all.contains(&p.as_str()));
        }
        for w in picked.windows(2) {
            assert_ne!(w[0], w[1]);
        }
    }
}

fn weighted(list: &[(u64, &str)]) -> Address {
    let pairs: Vec<_> = list.iter().map(|(w, a)| (*w, a.parse().unwrap())).collect();
    let mut b = Builder::new();
    b.add_addresses(&pairs);
    b.into_address()
}

#[test]
fn weights_of_addresses() {
    assert!(weights_fit(&addr(&["10.0.0.1:1", "10.0.0.2:1"])));
    assert!(weights_fit(&addr(&[])));
    let w = weighted(&[(0, "10.0.0.1:1"), (5, "10.0.0.2:1")]);
    assert!(!weights_fit(&w));
    assert_eq!(pick_unweighted_hosts(&w), None);
    assert_eq!(
        pick_unweighted_hosts(&addr(&["10.0.0.1:1"])),
        Some(Ok(vec![String::from("10.0.0.1:1")]))
    );
    // a weighted set whose weights fit is still picked from
    let picked = pick_hosts(&w).unwrap();
    assert_eq!(picked.len(), 2);
}
