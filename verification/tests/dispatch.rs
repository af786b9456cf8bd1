use divlink::routes::{public_routes, route_param, routes, uid_routes, username_routes, Method, Target};

fn segs(path: &str) -> Vec<String> {
    path.split('/')
        .filter(|s| !s.is_empty())
        .map(|s| s.to_string())
        .collect()
}

#[test]
fn uid_scope_routes_by_method() {
    assert_eq!(routes(Method::Get, &segs("/user")), Target::UserGetAll);
    assert_eq!(routes(Method::Get, &segs("/user/7")), Target::UserGetById);
    assert_eq!(routes(Method::Delete, &segs("/user/7")), Target::UserDeleteById);
    assert_eq!(routes(Method::Get, &segs("/user/7/info")), Target::UserInfoGet);
    assert_eq!(routes(Method::Put, &segs("/user/7/info")), Target::UserInfoPut);
    assert_eq!(routes(Method::Get, &segs("/user/7/facts")), Target::UidFactsGet);
    assert_eq!(routes(Method::Put, &segs("/user/7/facts")), Target::UidFactsPut);
    assert_eq!(routes(Method::Post, &segs("/user/7")), Target::NoRoute);
    assert_eq!(uid_routes(Method::Get, &segs("/u/alice")), None);
}

#[test]
fn username_scope_routes_by_method() {
    assert_eq!(routes(Method::Get, &segs("/u")), Target::UsernameIndex);
    assert_eq!(routes(Method::Get, &segs("/u/alice")), Target::UserGetByName);
    assert_eq!(routes(Method::Put, &segs("/u/alice")), Target::UserUpdateByName);
    assert_eq!(routes(Method::Delete, &segs("/u/alice")), Target::UserDeleteByName);
    assert_eq!(routes(Method::Get, &segs("/u/alice/feed")), Target::UserFeed);
    assert_eq!(routes(Method::Get, &segs("/u/alice/feed/items")), Target::UserFeedItems);
    assert_eq!(
        routes(Method::Get, &segs("/u/alice/feed/entities")),
        Target::UserFeedEntities
    );
    assert_eq!(
        routes(Method::Get, &segs("/u/alice/feed/records")),
        Target::UserFeedRecords
    );
    assert_eq!(routes(Method::Get, &segs("/u/alice/feed/other")), Target::NoRoute);
    assert_eq!(username_routes(Method::Get, &segs("/user")), None);
}

#[test]
fn public_pages_route_on_get_only() {
    assert_eq!(routes(Method::Get, &segs("/")), Target::Index);
    assert_eq!(routes(Method::Get, &segs("/about")), Target::About);
    assert_eq!(routes(Method::Get, &segs("/contact")), Target::Contact);
    assert_eq!(routes(Method::Get, &segs("/cover")), Target::Cover);
    assert_eq!(routes(Method::Get, &segs("/users")), Target::Users);
    assert_eq!(routes(Method::Get, &segs("/users/alice")), Target::UserPage);
    assert_eq!(routes(Method::Get, &segs("/dashboard")), Target::Dash);
    assert_eq!(routes(Method::Post, &segs("/about")), Target::NoRoute);
    assert_eq!(routes(Method::Get, &segs("/nowhere")), Target::NoRoute);
    assert_eq!(public_routes(Method::Post, &segs("/")), None);
}

#[test]
fn route_params_come_from_the_second_segment() {
    assert_eq!(route_param(&segs("/u/alice")), Some("alice".to_string()));
    assert_eq!(route_param(&segs("/user/7/info")), Some("7".to_string()));
    assert_eq!(route_param(&segs("/user")), None);
}
