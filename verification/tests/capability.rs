use crab_city::capability::{AccessRights, Capability};

const ALL: [Capability; 4] = [
    Capability::View,
    Capability::Collaborate,
    Capability::Admin,
    Capability::Owner,
];

#[test]
fn capability_ordering() {
    assert!(Capability::View < Capability::Collaborate);
    assert!(Capability::Collaborate < Capability::Admin);
    assert!(Capability::Admin < Capability::Owner);
}

#[test]
fn capability_display_fromstr() {
    for cap in ALL {
        let s = cap.as_str();
        let back = Capability::parse(s).unwrap();
        assert_eq!(cap, back);
    }
}

#[test]
fn preset_superset_ordering() {
    let view = Capability::View.access_rights();
    let collab = Capability::Collaborate.access_rights();
    let admin = Capability::Admin.access_rights();
    let owner = Capability::Owner.access_rights();

    assert!(collab.is_superset_of(&view));
    assert!(admin.is_superset_of(&collab));
    assert!(owner.is_superset_of(&admin));
    assert!(owner.is_superset_of(&view));

    assert!(!view.is_superset_of(&collab));
    assert!(!collab.is_superset_of(&admin));
}

#[test]
fn from_access_roundtrip() {
    for cap in ALL {
        let access = cap.access_rights();
        assert_eq!(Capability::from_access(&access), Some(cap));
    }
}

#[test]
fn intersect_commutative() {
    let a = Capability::Collaborate.access_rights();
    let b = Capability::Admin.access_rights();
    let ab = a.intersect(&b);
    let ba = b.intersect(&a);
    assert_eq!(ab.normalized(), ba.normalized());
}

#[test]
fn intersect_idempotent() {
    let a = Capability::Admin.access_rights();
    let aa = a.intersect(&a);
    assert_eq!(a.normalized(), aa.normalized());
}

#[test]
fn intersect_disjoint_is_empty() {
    let view = Capability::View.access_rights();
    let tasks_only = AccessRights::single("tasks", "create");
    let result = view.intersect(&tasks_only);
    assert!(result.0.is_empty());
}

#[test]
fn contains_basic() {
    let collab = Capability::Collaborate.access_rights();
    assert!(collab.contains("content", "read"));
    assert!(collab.contains("tasks", "create"));
    assert!(!collab.contains("members", "invite"));
}

#[test]
fn contains_consistent_with_superset() {
    let admin = Capability::Admin.access_rights();
    assert!(admin.contains("members", "invite"));
    let single = AccessRights::single("members", "invite");
    assert!(admin.is_superset_of(&single));
}

#[test]
fn diff_basic() {
    let view = Capability::View.access_rights();
    let collab = Capability::Collaborate.access_rights();
    let (added, removed) = view.diff(&collab);
    assert!(!added.0.is_empty());
    assert!(removed.0.is_empty());
}

#[test]
fn diff_and_intersect_consistent() {
    let old = Capability::View.access_rights();
    let new = Capability::Collaborate.access_rights();

    let (added, _removed) = old.diff(&new);
    let intersection = old.intersect(&new);

    for right in &new.0 {
        for action in &right.actions {
            let in_added = added.contains(&right.type_, action);
            let in_intersection = intersection.contains(&right.type_, action);
            assert!(in_added || in_intersection, "{}:{} missing", right.type_, action);
        }
    }
}

#[test]
fn capability_parse_unknown_message() {
    let err = Capability::parse("root").unwrap_err();
    assert_eq!(err, "unknown capability: root");
}

#[test]
fn intersect_narrows_every_pair() {
    for a in ALL {
        for b in ALL {
            let ar = a.access_rights();
            let br = b.access_rights();
            let i = ar.intersect(&br);
            assert!(ar.is_superset_of(&i));
            assert!(br.is_superset_of(&i));
            assert_eq!(i.normalized(), br.intersect(&ar).normalized());
        }
    }
}

#[test]
fn superset_follows_level_every_pair() {
    for a in ALL {
        for b in ALL {
            if a >= b {
                assert!(a.access_rights().is_superset_of(&b.access_rights()));
            } else {
                assert!(!a.access_rights().is_superset_of(&b.access_rights()));
            }
        }
    }
}

#[test]
fn access_right_new_merges_and_sorts() {
    let r = AccessRights(vec![
        crab_city::capability::AccessRight::new("tasks", &["update", "create", "create"]),
        crab_city::capability::AccessRight::new("chat", &["send"]),
        crab_city::capability::AccessRight::new("tasks", &["read"]),
    ]);
    let n = r.normalized();
    assert_eq!(n.len(), 2);
    assert_eq!(n[0].type_, "chat");
    assert_eq!(n[1].type_, "tasks");
    assert_eq!(n[1].actions, vec!["create".to_string(), "read".to_string(), "update".to_string()]);
}

#[test]
fn from_access_of_custom_rights_is_none() {
    let r = AccessRights::single("content", "read");
    assert_eq!(Capability::from_access(&r), None);
    assert!(AccessRights::empty().0.is_empty());
}

#[test]
fn lower_preset_never_covers_higher() {
    for (i, hi) in ALL.iter().enumerate() {
        for lo in &ALL[..i] {
            assert!(!lo.access_rights().is_superset_of(&hi.access_rights()), "{:?} must not cover {:?}", lo, hi);
        }
    }
}

#[test]
fn from_access_needs_the_exact_list() {
    for c in ALL {
        let mut entries = c.access_rights().0;
        assert_eq!(Capability::from_access(&AccessRights(entries.clone())), Some(c));
        entries.reverse();
        assert_eq!(Capability::from_access(&AccessRights(entries.clone())), None);
        entries.pop();
        assert_eq!(Capability::from_access(&AccessRights(entries)), None);
    }
}
