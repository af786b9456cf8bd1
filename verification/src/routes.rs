//! The route tables of the transport layer, as data: which operation a
//! request method and path resolve to. The transport around the library
//! parses the request line, splits the path into segments, and dispatches
//! on the returned target; parameterized targets take their parameter from
//! the second path segment.

use vstd::prelude::*;

verus! {

/// A request method.
#[derive(Clone, Copy, Debug, PartialEq, Eq, Structural)]
pub enum Method {
    Get,
    Post,
    Put,
    Delete,
}

/// Every operation the route tables can resolve to.
#[derive(Clone, Copy, Debug, PartialEq, Eq, Structural)]
pub enum Target {
    Index,
    About,
    Contact,
    Cover,
    Users,
    UserPage,
    Dash,
    UserGetAll,
    UserGetById,
    UserDeleteById,
    UserInfoGet,
    UserInfoPut,
    UidFactsGet,
    UidFactsPut,
    UsernameIndex,
    UserGetByName,
    UserUpdateByName,
    UserDeleteByName,
    UserFeed,
    UserFeedItems,
    UserFeedEntities,
    UserFeedRecords,
    NoRoute,
}

/// The key-addressed user scope: what a path under `user` resolves to.
pub open spec fn spec_uid_routes(m: Method, segs: Seq<Seq<char>>) -> Option<Target> {
    if segs.len() >= 1 && segs[0] == "user"@ {
        if segs.len() == 1 {
            if m == Method::Get {
                Some(Target::UserGetAll)
            } else {
                None
            }
        } else if segs.len() == 2 {
            match m {
                Method::Get => Some(Target::UserGetById),
                Method::Delete => Some(Target::UserDeleteById),
                _ => None,
            }
        } else if segs.len() == 3 && segs[2] == "info"@ {
            match m {
                Method::Get => Some(Target::UserInfoGet),
                Method::Put => Some(Target::UserInfoPut),
                _ => None,
            }
        } else if segs.len() == 3 && segs[2] == "facts"@ {
            match m {
                Method::Get => Some(Target::UidFactsGet),
                Method::Put => Some(Target::UidFactsPut),
                _ => None,
            }
        } else {
            None
        }
    } else {
        None
    }
}

/// The username-addressed scope: what a path under `u` resolves to.
pub open spec fn spec_username_routes(m: Method, segs: Seq<Seq<char>>) -> Option<Target> {
    if segs.len() >= 1 && segs[0] == "u"@ {
        if segs.len() == 1 {
            if m == Method::Get {
                Some(Target::UsernameIndex)
            } else {
                None
            }
        } else if segs.len() == 2 {
            match m {
                Method::Get => Some(Target::UserGetByName),
                Method::Put => Some(Target::UserUpdateByName),
                Method::Delete => Some(Target::UserDeleteByName),
                _ => None,
            }
        } else if segs.len() == 3 && segs[2] == "feed"@ {
            if m == Method::Get {
                Some(Target::UserFeed)
            } else {
                None
            }
        } else if segs.len() == 4 && segs[2] == "feed"@ && m == Method::Get {
            if segs[3] == "items"@ {
                Some(Target::UserFeedItems)
            } else if segs[3] == "entities"@ {
                Some(Target::UserFeedEntities)
            } else if segs[3] == "records"@ {
                Some(Target::UserFeedRecords)
            } else {
                None
            }
        } else {
            None
        }
    } else {
        None
    }
}

/// The public pages: what a top-level path resolves to.
pub open spec fn spec_public_routes(m: Method, segs: Seq<Seq<char>>) -> Option<Target> {
    if m != Method::Get {
        None
    } else if segs.len() == 0 {
        Some(Target::Index)
    } else if segs.len() == 1 {
        if segs[0] == "about"@ {
            Some(Target::About)
        } else if segs[0] == "contact"@ {
            Some(Target::Contact)
        } else if segs[0] == "cover"@ {
            Some(Target::Cover)
        } else if segs[0] == "users"@ {
            Some(Target::Users)
        } else if segs[0] == "dashboard"@ {
            Some(Target::Dash)
        } else {
            None
        }
    } else if segs.len() == 2 && segs[0] == "users"@ {
        Some(Target::UserPage)
    } else {
        None
    }
}

/// The whole route table: the scopes in mount order, then the public
/// pages, then no route.
pub open spec fn spec_routes(m: Method, segs: Seq<Seq<char>>) -> Target {
    match spec_uid_routes(m, segs) {
        Some(t) => t,
        None => match spec_username_routes(m, segs) {
            Some(t) => t,
            None => match spec_public_routes(m, segs) {
                Some(t) => t,
                None => Target::NoRoute,
            },
        },
    }
}

/// Whether a path segment is exactly this route word.
fn seg_is(seg: &String, word: &str) -> (r: bool)
    ensures
        r == (seg@ == word@),
{
    let w: String = word.to_owned();
    *seg == w
}

/// Resolve the key-addressed user scope.
pub fn uid_routes(m: Method, segments: &Vec<String>) -> (r: Option<Target>)
    ensures
        r == spec_uid_routes(m, segments.deep_view()),
{
    let n = segments.len();
    if n >= 1 && seg_is(&segments[0], "user") {
        if n == 1 {
            if m == Method::Get {
                return Some(Target::UserGetAll);
            }
            return None;
        }
        if n == 2 {
            return match m {
                Method::Get => Some(Target::UserGetById),
                Method::Delete => Some(Target::UserDeleteById),
                _ => None,
            };
        }
        if n == 3 && seg_is(&segments[2], "info") {
            return match m {
                Method::Get => Some(Target::UserInfoGet),
                Method::Put => Some(Target::UserInfoPut),
                _ => None,
            };
        }
        if n == 3 && seg_is(&segments[2], "facts") {
            return match m {
                Method::Get => Some(Target::UidFactsGet),
                Method::Put => Some(Target::UidFactsPut),
                _ => None,
            };
        }
        return None;
    }
    None
}

/// Resolve the username-addressed scope.
pub fn username_routes(m: Method, segments: &Vec<String>) -> (r: Option<Target>)
    ensures
        r == spec_username_routes(m, segments.deep_view()),
{
    let n = segments.len();
    if n >= 1 && seg_is(&segments[0], "u") {
        if n == 1 {
            if m == Method::Get {
                return Some(Target::UsernameIndex);
            }
            return None;
        }
        if n == 2 {
            return match m {
                Method::Get => Some(Target::UserGetByName),
                Method::Put => Some(Target::UserUpdateByName),
                Method::Delete => Some(Target::UserDeleteByName),
                _ => None,
            };
        }
        if n == 3 && seg_is(&segments[2], "feed") {
            if m == Method::Get {
                return Some(Target::UserFeed);
            }
            return None;
        }
        if n == 4 && seg_is(&segments[2], "feed") && m == Method::Get {
            if seg_is(&segments[3], "items") {
                return Some(Target::UserFeedItems);
            }
            if seg_is(&segments[3], "entities") {
                return Some(Target::UserFeedEntities);
            }
            if seg_is(&segments[3], "records") {
                return Some(Target::UserFeedRecords);
            }
            return None;
        }
        return None;
    }
    None
}

/// Resolve the public pages.
pub fn public_routes(m: Method, segments: &Vec<String>) -> (r: Option<Target>)
    ensures
        r == spec_public_routes(m, segments.deep_view()),
{
    if m != Method::Get {
        return None;
    }
    let n = segments.len();
    if n == 0 {
        return Some(Target::Index);
    }
    if n == 1 {
        if seg_is(&segments[0], "about") {
            return Some(Target::About);
        }
        if seg_is(&segments[0], "contact") {
            return Some(Target::Contact);
        }
        if seg_is(&segments[0], "cover") {
            return Some(Target::Cover);
        }
        if seg_is(&segments[0], "users") {
            return Some(Target::Users);
        }
        if seg_is(&segments[0], "dashboard") {
            return Some(Target::Dash);
        }
        return None;
    }
    if n == 2 && seg_is(&segments[0], "users") {
        return Some(Target::UserPage);
    }
    None
}

/// Resolve the whole route table.
pub fn routes(m: Method, segments: &Vec<String>) -> (r: Target)
    ensures
        r == spec_routes(m, segments.deep_view()),
{
    match uid_routes(m, segments) {
        Some(t) => t,
        None => match username_routes(m, segments) {
            Some(t) => t,
            None => match public_routes(m, segments) {
                Some(t) => t,
                None => Target::NoRoute,
            },
        },
    }
}

/// The parameter of a parameterized target: the second path segment.
pub fn route_param(segments: &Vec<String>) -> (r: Option<String>)
    ensures
        segments.deep_view().len() >= 2 ==> (r matches Some(p) && p@ == segments.deep_view()[1]),
        segments.deep_view().len() < 2 ==> r is None,
{
    if segments.len() >= 2 {
        Some(segments[1].clone())
    } else {
        None
    }
}

} // verus!
