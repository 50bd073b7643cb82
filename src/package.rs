use vstd::prelude::*;

use crate::error::Error;

verus! {

/// The canonical, index-ready record of one registry entry.
#[derive(Clone, Debug)]
pub struct Package {
    pub attribute: String,
    pub name: String,
    pub version: String,
    pub store_path: Option<String>,
    pub description: Option<String>,
    pub long_description: Option<String>,
    /// Relevance to the query of one search; never stored.
    pub score: Option<i64>,
}

/// The directory under which store paths are resolved.
pub open spec fn store_root() -> Seq<char> {
    "/nix/store/"@
}

/// Where a store path lies on disk: an absolute path stands as it is, a
/// relative one is taken under the store root.
pub open spec fn resolved_store_path(store_path: Seq<char>) -> Seq<char> {
    if store_path.len() > 0 && store_path[0] == '/' {
        store_path
    } else {
        store_root() + store_path
    }
}

/// The location on disk of `store_path`, whose existence tells whether the
/// package is built.
pub fn resolve_store_path(store_path: &str) -> (r: String)
    ensures
        r@ == resolved_store_path(store_path@),
{
    proof {
        reveal_strlit("/nix/store/");
    }
    if store_path.unicode_len() > 0 && store_path.get_char(0) == '/' {
        return String::from_str(store_path);
    }
    let mut r = String::from_str("/nix/store/");
    r.append(store_path);
    r
}

fn missing_column(column: &str) -> (r: Error)
    ensures
        r is SearchReadFailure,
{
    let mut message = String::from_str("missing value in column ");
    message.append(column);
    Error::SearchReadFailure { message }
}

impl Package {
    /// A record decoded from the columns of a stored row. The attribute, name
    /// and version must be present: where one is absent the row cannot be
    /// decoded and the result is a `SearchReadFailure`. No score is set.
    pub fn from_columns(
        attribute: Option<String>,
        name: Option<String>,
        version: Option<String>,
        store_path: Option<String>,
        description: Option<String>,
        long_description: Option<String>,
    ) -> (r: Result<Package, Error>)
        ensures
            (attribute is Some && name is Some && version is Some) <==> r is Ok,
            r is Err ==> r matches Err(Error::SearchReadFailure { .. }),
            r matches Ok(p) ==> (p == Package {
                attribute: attribute->0,
                name: name->0,
                version: version->0,
                store_path,
                description,
                long_description,
                score: None,
            }),
    {
        let attribute = match attribute {
            Some(a) => a,
            None => {
                return Err(missing_column("attribute"));
            },
        };
        let name = match name {
            Some(n) => n,
            None => {
                return Err(missing_column("name"));
            },
        };
        let version = match version {
            Some(v) => v,
            None => {
                return Err(missing_column("version"));
            },
        };
        Ok(
            Package {
                attribute,
                name,
                version,
                store_path,
                description,
                long_description,
                score: None,
            },
        )
    }
}

} // verus!
