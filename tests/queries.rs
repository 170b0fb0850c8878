use wise::{
    has_accessibility_permissions, permission_with_options, running_apps_with_bundle_id,
    ObjectSystem, ObjectTable, WiseError,
};

#[test]
fn permission_granted() {
    let mut t = ObjectTable::new(true);
    let r = has_accessibility_permissions(&mut t);
    assert!(matches!(r, Ok(true)));
    assert_eq!(t.trust_query_calls(), 1);
    // the options collection was the first allocation, and it is gone
    assert!(!t.is_live(1));
}

#[test]
fn permission_denied() {
    let mut t = ObjectTable::new(false);
    let r = has_accessibility_permissions(&mut t);
    assert!(matches!(r, Ok(false)));
    assert_eq!(t.trust_query_calls(), 1);
}

#[test]
fn permission_factory_failure_asks_nothing() {
    let mut t = ObjectTable::new(true);
    t.set_options_failure(true);
    let r = has_accessibility_permissions(&mut t);
    assert!(matches!(r, Err(WiseError::CouldNotCreateCFObject)));
    assert_eq!(t.trust_query_calls(), 0);
}

#[test]
fn permission_with_null_options() {
    let mut t = ObjectTable::new(true);
    let r = permission_with_options(&mut t, 0);
    assert!(matches!(r, Err(WiseError::CouldNotCreateCFObject)));
    assert_eq!(t.trust_query_calls(), 0);
}

#[test]
fn permission_with_options_releases_them() {
    let mut t = ObjectTable::new(true);
    let options = t.create_options();
    assert_ne!(options, 0);
    let r = permission_with_options(&mut t, options);
    assert!(matches!(r, Ok(true)));
    assert!(!t.is_live(options));
    assert_eq!(t.trust_query_calls(), 1);
}

#[test]
fn no_matching_process_gives_empty() {
    let mut t = ObjectTable::new(true);
    let other = t.add_process("com.apple.Mail");
    let r = running_apps_with_bundle_id(&mut t, "com.apple.Safari");
    match r {
        Ok(v) => assert!(v.is_empty()),
        Err(e) => panic!("unexpected error {:?}", e),
    }
    assert_eq!(t.retain_count(other), 1);
}

#[test]
fn matching_processes_stay_valid_after_the_array() {
    let mut t = ObjectTable::new(true);
    let a = t.add_process("com.apple.Safari");
    let b = t.add_process("com.apple.Mail");
    let c = t.add_process("com.apple.Safari");
    let d = t.add_process("com.apple.Safari");
    let apps = running_apps_with_bundle_id(&mut t, "com.apple.Safari").unwrap();
    assert_eq!(apps.len(), 3);
    assert_eq!(apps[0].get(), a);
    assert_eq!(apps[1].get(), c);
    assert_eq!(apps[2].get(), d);
    for app in &apps {
        assert!(t.is_live(app.get()));
        assert_eq!(app.strong_count(&t), 2);
    }
    assert_eq!(t.retain_count(b), 1);
    // the string and the array made by the call are gone
    assert!(!t.is_live(d + 1));
    assert!(!t.is_live(d + 2));
    for app in apps {
        app.release(&mut t);
    }
    assert_eq!(t.retain_count(a), 1);
    assert_eq!(t.retain_count(c), 1);
    assert_eq!(t.retain_count(d), 1);
}

#[test]
fn released_process_is_not_listed() {
    let mut t = ObjectTable::new(true);
    let a = t.add_process("org.example.app");
    let b = t.add_process("org.example.app");
    t.release(a);
    let apps = running_apps_with_bundle_id(&mut t, "org.example.app").unwrap();
    assert_eq!(apps.len(), 1);
    assert_eq!(apps[0].get(), b);
}

#[test]
fn string_failure_is_reported() {
    let mut t = ObjectTable::new(true);
    let a = t.add_process("com.apple.Safari");
    t.set_string_failure(true);
    let r = running_apps_with_bundle_id(&mut t, "com.apple.Safari");
    assert!(matches!(r, Err(WiseError::CouldNotCreateCFObject)));
    assert_eq!(t.retain_count(a), 1);
}

#[test]
fn null_lookup_is_unexpected() {
    let mut t = ObjectTable::new(true);
    let a = t.add_process("com.apple.Safari");
    t.set_lookup_failure(true);
    let r = running_apps_with_bundle_id(&mut t, "com.apple.Safari");
    assert!(matches!(r, Err(WiseError::UnexpectedNull)));
    assert_eq!(t.retain_count(a), 1);
    // the string made for the lookup was released
    assert!(!t.is_live(a + 1));
}

#[test]
fn whatever_carries_its_message() {
    let e = WiseError::Whatever { message: String::from("no permission") };
    match e {
        WiseError::Whatever { message } => assert_eq!(message, "no permission"),
        _ => panic!("wrong variant"),
    }
}

#[test]
fn lookup_reports_each_match_once_in_order() {
    let mut t = ObjectTable::new(true);
    let a = t.add_process("x");
    let b = t.add_process("x");
    let apps = running_apps_with_bundle_id(&mut t, "x").unwrap();
    assert_eq!(apps.len(), 2);
    assert_eq!(apps[0].get(), a);
    assert_eq!(apps[1].get(), b);
    assert_eq!(t.retain_count(a), 2);
    let again = running_apps_with_bundle_id(&mut t, "x").unwrap();
    assert_eq!(again.len(), 2);
    assert_eq!(t.retain_count(a), 3);
    assert_eq!(t.retain_count(b), 3);
}

#[test]
fn string_failure_makes_no_lookup_array() {
    let mut t = ObjectTable::new(true);
    let a = t.add_process("x");
    t.set_string_failure(true);
    assert!(matches!(
        running_apps_with_bundle_id(&mut t, "x"),
        Err(WiseError::CouldNotCreateCFObject)
    ));
    // nothing was allocated by the failed call
    let next = t.add_object();
    assert_eq!(next, a + 1);
}
