use hallway::common::CurrentUserData;
use hallway::config;
use hallway::pomerium;
use hallway::pomerium::matchers;
use hallway::pomerium::policy::OrPolicy;
use hallway::pomerium::{ActionCriteria, ActionOperator, Policy, PolicyAction};
use hallway::rendering::collections::{PolicyHolder, RouteHolder, UserDataHolder};
use hallway::rendering::extract_emails;

fn allow_email_policy(email: &str) -> Policy {
    Policy(vec![PolicyAction {
        allow: ActionOperator {
            or: OrPolicy(vec![ActionCriteria::Email {
                email: matchers::String {
                    is: Some(email.to_string()),
                    starts_with: None,
                    ends_with: None,
                    contains: None,
                },
            }]),
            and: hallway::pomerium::policy::AndPolicy(vec![]),
            not: hallway::pomerium::policy::NotPolicy(vec![]),
            nor: hallway::pomerium::policy::NorPolicy(vec![]),
        },
        deny: ActionOperator::empty(),
    }])
}

fn pomerium_route(key: &str, public: bool, policy: Policy) -> pomerium::Route {
    pomerium::Route {
        from: key.to_string(),
        prefix: String::new(),
        path: String::new(),
        allow_public_unauthenticated_access: public,
        policy,
    }
}

fn leaf(key: &str) -> config::Route {
    config::Route {
        icon: "icon.svg".to_string(),
        label: key.to_string(),
        data: config::RouteData::Path(key.to_string()),
        button_color: "#FEFFE8".to_string(),
        escaped_label: String::new(),
        is_group: false,
    }
}

fn group(label: &str, children: Vec<config::Route>) -> config::Route {
    config::Route {
        icon: "group.svg".to_string(),
        label: label.to_string(),
        data: config::RouteData::Group(children),
        button_color: "#FEFFE8".to_string(),
        escaped_label: String::new(),
        is_group: true,
    }
}

fn route_eq(a: &config::Route, b: &config::Route) -> bool {
    a.icon == b.icon && a.label == b.label && a.button_color == b.button_color
        && a.escaped_label == b.escaped_label && a.is_group == b.is_group
        && match (&a.data, &b.data) {
            (config::RouteData::Path(p), config::RouteData::Path(q)) => p == q,
            (config::RouteData::Group(g), config::RouteData::Group(h)) => routes_eq(g, h),
            _ => false,
        }
}

fn routes_eq(a: &[config::Route], b: &[config::Route]) -> bool {
    a.len() == b.len() && a.iter().zip(b.iter()).all(|(x, y)| route_eq(x, y))
}

fn leaf_key(r: &config::Route) -> &str {
    match &r.data {
        config::RouteData::Path(p) => p,
        config::RouteData::Group(_) => panic!("expected a leaf"),
    }
}

#[test]
fn scenario_allow_by_email() {
    let policies = PolicyHolder::from(vec![pomerium_route(
        "key1",
        false,
        allow_email_policy("a@x.com"),
    )]);
    let routes = RouteHolder::from(vec![leaf("key1")]);

    let visible = routes.can_be_accessed_by("a@x.com", &policies);
    assert_eq!(visible.len(), 1);
    assert_eq!(leaf_key(&visible[0]), "key1");

    let hidden = routes.can_be_accessed_by("b@x.com", &policies);
    assert_eq!(hidden.len(), 0);
}

#[test]
fn scenario_public_override() {
    let policies = PolicyHolder::from(vec![pomerium_route("key2", true, Policy(vec![]))]);
    let routes = RouteHolder::from(vec![leaf("key2")]);

    for identity in ["a@x.com", "b@x.com", ""] {
        let visible = routes.can_be_accessed_by(identity, &policies);
        assert_eq!(visible.len(), 1);
        assert_eq!(leaf_key(&visible[0]), "key2");
    }
}

#[test]
fn scenario_group_keeps_only_visible_children() {
    let policies = PolicyHolder::from(vec![
        pomerium_route("key1", false, allow_email_policy("a@x.com")),
        pomerium_route("keyX", false, allow_email_policy("other@x.com")),
    ]);
    let routes = RouteHolder::from(vec![group("tools", vec![leaf("key1"), leaf("keyX")])]);

    let visible = routes.can_be_accessed_by("a@x.com", &policies);
    assert_eq!(visible.len(), 1);
    match &visible[0].data {
        config::RouteData::Group(children) => {
            assert_eq!(children.len(), 1);
            assert_eq!(leaf_key(&children[0]), "key1");
        }
        _ => panic!("expected the group to survive"),
    }

    // The group disappears entirely for an identity with no visible child.
    let hidden = routes.can_be_accessed_by("b@x.com", &policies);
    assert_eq!(hidden.len(), 0);
}

#[test]
fn scenario_empty_policy_denies_known_identity() {
    // a@x.com is a known identity via the policy on another route, yet the
    // empty action list on key3 still denies it.
    let policies = PolicyHolder::from(vec![
        pomerium_route("key1", false, allow_email_policy("a@x.com")),
        pomerium_route("key3", false, Policy(vec![])),
    ]);
    let routes = RouteHolder::from(vec![leaf("key1"), leaf("key3")]);

    for identity in ["a@x.com", "b@x.com", ""] {
        let visible = routes.can_be_accessed_by(identity, &policies);
        assert!(visible.iter().all(|r| leaf_key(r) != "key3"));
    }
}

#[test]
fn resolver_is_deterministic() {
    let policies = PolicyHolder::from(vec![
        pomerium_route("key1", false, allow_email_policy("a@x.com")),
        pomerium_route("key2", true, Policy(vec![])),
    ]);
    let routes = RouteHolder::from(vec![
        leaf("key2"),
        group("tools", vec![leaf("key1")]),
    ]);

    let first = routes.can_be_accessed_by("a@x.com", &policies);
    let second = routes.can_be_accessed_by("a@x.com", &policies);
    assert!(routes_eq(&first, &second));
}

#[test]
fn resolver_keeps_configuration_order() {
    let policies = PolicyHolder::from(vec![pomerium_route("k", true, Policy(vec![]))]);
    let mut a = leaf("k");
    a.label = "first".to_string();
    let mut b = leaf("k");
    b.label = "second".to_string();
    let routes = RouteHolder::from(vec![a, b]);

    let visible = routes.can_be_accessed_by("anyone@x.com", &policies);
    assert_eq!(visible.len(), 2);
    assert_eq!(visible[0].label, "first");
    assert_eq!(visible[1].label, "second");
}

#[test]
fn unknown_routing_key_is_denied() {
    let policies = PolicyHolder::from(vec![pomerium_route("known", true, Policy(vec![]))]);
    let routes = RouteHolder::from(vec![leaf("unknown")]);
    let visible = routes.can_be_accessed_by("a@x.com", &policies);
    assert_eq!(visible.len(), 0);
}

#[test]
fn index_key_concatenates_base_path_and_prefix() {
    let mut r = pomerium_route("https://x.com", true, Policy(vec![]));
    r.path = "/app".to_string();
    r.prefix = "/v1".to_string();
    let policies = PolicyHolder::from(vec![r]);
    let routes = RouteHolder::from(vec![leaf("https://x.com/app/v1")]);
    let visible = routes.can_be_accessed_by("", &policies);
    assert_eq!(visible.len(), 1);
}

#[test]
fn user_data_holder_personalizes_known_identities() {
    let pomerium_data = vec![
        pomerium_route("key1", false, allow_email_policy("a@x.com")),
        pomerium_route("key2", true, Policy(vec![])),
    ];
    let emails = extract_emails(&pomerium_data);
    assert_eq!(emails.len(), 1);
    assert!(emails.iter().any(|e| e == "a@x.com"));

    let routes = RouteHolder::from(vec![leaf("key1"), leaf("key2")]);
    let policies = PolicyHolder::from(pomerium_data);
    let holder = UserDataHolder::from(emails, &routes, policies);

    let known = holder.get_render(&CurrentUserData {
        email: "a@x.com".to_string(),
        name: "Known".to_string(),
        picture: None,
    });
    assert_eq!(known.name, "Known");
    assert_eq!(known.email, "a@x.com");
    assert_eq!(known.background, "background.avif");
    assert_eq!(known.accessible_routes.len(), 2);

    let unknown = holder.get_render(&CurrentUserData {
        email: "b@x.com".to_string(),
        name: "Unknown".to_string(),
        picture: None,
    });
    assert_eq!(unknown.accessible_routes.len(), 1);
    assert_eq!(leaf_key(&unknown.accessible_routes[0]), "key2");
}

#[test]
fn apply_modifications_replaces_policy_on_public_routes() {
    let mut conf = pomerium::Config {
        routes: vec![
            pomerium_route("public", true, Policy(vec![])),
            pomerium_route("private", false, Policy(vec![])),
        ],
    };
    pomerium::apply_modifications(&mut conf);
    assert!(conf.routes[0].policy.check_authorized("anyone@x.com"));
    assert!(!conf.routes[1].policy.check_authorized("anyone@x.com"));
}

#[test]
fn fill_in_internals_escapes_labels_and_marks_groups() {
    let mut inner = leaf("key1");
    inner.label = "My App.Beta".to_string();
    let outer = group("Dev Tools", vec![inner]);
    let filled = config::fill_in_internals(&vec![outer]);
    assert_eq!(filled.len(), 1);
    assert_eq!(filled[0].escaped_label, "Dev_Tools");
    assert!(filled[0].is_group);
    match &filled[0].data {
        config::RouteData::Group(children) => {
            assert_eq!(children[0].escaped_label, "My_App_Beta");
            assert!(!children[0].is_group);
        }
        _ => panic!("expected a group"),
    }
}
