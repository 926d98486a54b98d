use rdns_domains::domain::{domain_bounds, domain_for};
use rdns_domains::suffix::SuffixSet;

fn set_of(entries: &[&str]) -> SuffixSet {
    let mut s = SuffixSet::new();
    for e in entries {
        s.insert(e.as_bytes().to_vec());
    }
    s
}

#[test]
fn single_suffix_label() {
    let set = set_of(&["com"]);
    assert_eq!(domain_for(b"example.com", &set), Some(&b"example"[..]));
}

#[test]
fn absorbs_two_suffix_labels() {
    let set = set_of(&["uk", "co"]);
    assert_eq!(domain_for(b"example.co.uk", &set), Some(&b"example"[..]));
}

#[test]
fn deep_hostname_with_multi_label_suffix() {
    let set = set_of(&["au", "net", "com"]);
    assert_eq!(
        domain_for(b"cpe-1-120-175-74.4cbp-r-037.cha.qld.bigpond.net.au", &set),
        Some(&b"bigpond"[..])
    );
}

#[test]
fn no_dot_yields_absent() {
    let set = set_of(&["com", "localhost"]);
    assert_eq!(domain_for(b"localhost", &set), None);
}

#[test]
fn unknown_final_label_yields_absent() {
    let set = set_of(&["com"]);
    assert_eq!(domain_for(b"example.org", &set), None);
}

#[test]
fn empty_hostname_yields_absent() {
    let set = set_of(&["com"]);
    assert_eq!(domain_for(b"", &set), None);
}

#[test]
fn hostname_of_only_suffix_labels_falls_back_to_first_label() {
    // Once the frontier has absorbed "uk" there is no dot left of "co", so
    // the scan stops and the remaining prefix is reported as the domain.
    let set = set_of(&["uk", "co"]);
    assert_eq!(domain_for(b"co.uk", &set), Some(&b"co"[..]));
}

#[test]
fn bounds_are_offsets_into_the_hostname() {
    let set = set_of(&["com"]);
    let host = b"www.example.com";
    let (s, e) = domain_bounds(host, &set).unwrap();
    assert_eq!((s, e), (4, 11));
    assert_eq!(&host[s..e], b"example");
}

#[test]
fn duplicate_entries_do_not_change_membership() {
    let mut set = set_of(&["com", "com"]);
    set.insert(b"com".to_vec());
    assert!(set.contains(b"com"));
    assert!(!set.contains(b"co"));
    assert_eq!(domain_for(b"example.com", &set), Some(&b"example"[..]));
}

#[test]
fn comment_and_blank_lines_are_ignored() {
    let mut set = SuffixSet::new();
    set.add_line(b"// top level domains");
    set.add_line(b"");
    set.add_line(b"   ");
    set.add_line(b"com");
    assert!(set.contains(b"com"));
    assert!(!set.contains(b"// top level domains"));
    assert!(!set.contains(b""));
    assert_eq!(domain_for(b"example.com", &set), Some(&b"example"[..]));
}
