use forge_coverage::hits::{Hit, HitMap};
use forge_coverage::identity::{Address, ArtifactIdentity, CompilerVersion};

#[test]
fn a_new_hit_map_holds_nothing() {
    let map = HitMap::new();
    assert!(!map.contains(Address::new(0, 1)));
    assert!(map.get(Address::new(0, 1)).is_none());
}

#[test]
fn hits_are_kept_per_address() {
    let a = Address::new(0, 1);
    let b = Address::new(1, 1);
    let mut map = HitMap::new();
    map.record(a, 2, 7);
    map.record(b, 2, 1);
    map.record(a, 5, 3);
    map.record(a, 2, 4);
    assert!(map.contains(a));
    assert!(map.contains(b));
    assert!(!map.contains(Address::new(1, 0)));
    assert_eq!(map.get(a).unwrap(), &vec![Hit::new(2, 7), Hit::new(5, 3), Hit::new(2, 4)]);
    assert_eq!(map.get(b).unwrap(), &vec![Hit { offset: 2, count: 1 }]);
    assert!(map.get(Address::new(0, 0)).is_none());
}

#[test]
fn addresses_differ_in_either_half() {
    assert_eq!(Address::new(3, 4), Address { high: 3, low: 4 });
    assert_ne!(Address::new(3, 4), Address::new(4, 3));
    assert_ne!(Address::new(0, u128::MAX), Address::new(1, u128::MAX));
}

#[test]
fn identities_are_compared_by_all_three_parts() {
    let v = CompilerVersion::new(0, 8, 13);
    assert_eq!(v, CompilerVersion {
        major: 0,
        minor: 8,
        patch: 13,
        pre: String::new(),
        build: String::new(),
    });
    let id =
        ArtifactIdentity::new(v.clone(), String::from("Counter"), String::from("src/Counter.sol"));
    assert_eq!(id.version, v);
    assert_eq!(id.name, "Counter");
    assert_eq!(id.path, "src/Counter.sol");
    assert!(id.same(&id.clone()));
    let other_version = ArtifactIdentity::new(
        CompilerVersion::new(0, 8, 14),
        String::from("Counter"),
        String::from("src/Counter.sol"),
    );
    let other_name =
        ArtifactIdentity::new(v.clone(), String::from("Other"), String::from("src/Counter.sol"));
    let other_path =
        ArtifactIdentity::new(v.clone(), String::from("Counter"), String::from("src/C.sol"));
    assert!(!id.same(&other_version));
    assert!(!id.same(&other_name));
    assert!(!id.same(&other_path));
}

#[test]
fn versions_are_compared_by_all_five_parts() {
    let release = CompilerVersion::new(0, 8, 13);
    let build = |pre: &str, build: &str| {
        CompilerVersion::with_parts(0, 8, 13, String::from(pre), String::from(build))
    };
    assert!(release.same(&CompilerVersion::new(0, 8, 13)));
    assert!(release.same(&build("", "")));
    assert!(release.same(&release.duplicate()));
    assert!(!release.same(&CompilerVersion::new(1, 8, 13)));
    assert!(!release.same(&CompilerVersion::new(0, 9, 13)));
    assert!(!release.same(&CompilerVersion::new(0, 8, 14)));
    assert!(!release.same(&build("nightly", "")));
    assert!(!release.same(&build("", "commit.abaa5c0e")));
    assert!(build("nightly", "commit.1").same(&build("nightly", "commit.1")));
    assert!(!build("nightly", "commit.1").same(&build("nightly", "commit.2")));
    let nightly = build("nightly", "commit.1");
    assert_eq!(nightly.duplicate(), nightly);
    assert_eq!(nightly.pre, "nightly");
    assert_eq!(nightly.build, "commit.1");
}

#[test]
fn two_builds_of_one_release_name_two_artifacts() {
    let one = CompilerVersion::with_parts(0, 8, 13, String::new(), String::from("commit.1"));
    let two = CompilerVersion::with_parts(0, 8, 13, String::new(), String::from("commit.2"));
    let first = ArtifactIdentity::new(one, String::from("C"), String::from("c.sol"));
    let second = ArtifactIdentity::new(two, String::from("C"), String::from("c.sol"));
    assert!(!first.same(&second));
}
