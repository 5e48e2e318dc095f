use vstd::prelude::*;
use vstd::string::StringExecFns;
use crate::errors::Error;
use crate::jsonval::{
    field, json_as_array, json_as_bool, json_as_str, json_get, json_of_text, json_tree,
    parse_json, JsonModel,
};

verus! {

pub struct Owner {
    pub login: String,
}

/// A repository's identity as the lister yields it.
pub struct Repository {
    pub name: String,
    pub is_fork: bool,
    pub owner: Owner,
}

impl Clone for Repository {
    fn clone(&self) -> (r: Self)
        ensures
            r == *self,
    {
        Repository {
            name: self.name.clone(),
            is_fork: self.is_fork,
            owner: Owner { login: self.owner.login.clone() },
        }
    }
}

pub struct PageInfo {
    pub end_cursor: String,
    pub has_next_page: bool,
}

pub struct Repositories {
    pub nodes: Vec<Repository>,
    pub page_info: PageInfo,
}

pub struct User {
    pub repositories: Repositories,
}

pub struct Data {
    pub user: User,
}

pub struct Response {
    pub data: Data,
}

/// The mathematical content of one listed repository.
#[verifier::ext_equal]
pub struct RepoModel {
    pub name: Seq<char>,
    pub is_fork: bool,
    pub login: Seq<char>,
}

impl Repository {
    pub open spec fn model(self) -> RepoModel {
        RepoModel { name: self.name@, is_fork: self.is_fork, login: self.owner.login@ }
    }
}

/// The mathematical content of one listing page.
#[verifier::ext_equal]
pub struct RepoPageModel {
    pub nodes: Seq<RepoModel>,
    pub end_cursor: Seq<char>,
    pub has_next_page: bool,
}

impl Repositories {
    pub open spec fn model(self) -> RepoPageModel {
        RepoPageModel {
            nodes: self.nodes@.map_values(|r: Repository| r.model()),
            end_cursor: self.page_info.end_cursor@,
            has_next_page: self.page_info.has_next_page,
        }
    }
}

/// One listed repository's content, when the tree has the expected shape.
pub open spec fn spec_repo_node(j: JsonModel) -> Option<RepoModel> {
    match (field(j, "name"@), field(j, "isFork"@), field(j, "owner"@)) {
        (Some(JsonModel::Text(n)), Some(JsonModel::Bool(f)), Some(o)) => match field(
            o,
            "login"@,
        ) {
            Some(JsonModel::Text(l)) => Some(RepoModel { name: n, is_fork: f, login: l }),
            _ => None,
        },
        _ => None,
    }
}

/// The repositories of an array, in array order; `None` when any node is not
/// a well-formed repository.
pub open spec fn spec_repo_nodes(arr: Seq<JsonModel>) -> Option<Seq<RepoModel>>
    decreases arr.len(),
{
    if arr.len() == 0 {
        Some(Seq::empty())
    } else {
        match (spec_repo_nodes(arr.drop_last()), spec_repo_node(arr.last())) {
            (Some(rest), Some(r)) => Some(rest.push(r)),
            _ => None,
        }
    }
}

proof fn lemma_repo_nodes_prefix_none(arr: Seq<JsonModel>, i: int)
    requires
        0 <= i <= arr.len(),
        spec_repo_nodes(arr.take(i)) is None,
    ensures
        spec_repo_nodes(arr) is None,
    decreases arr.len() - i,
{
    if i < arr.len() {
        assert(arr.take(i + 1).drop_last() =~= arr.take(i));
        lemma_repo_nodes_prefix_none(arr, i + 1);
    } else {
        assert(arr.take(i) =~= arr);
    }
}

/// What a listing response body decodes to; `None` when it does not have the
/// expected shape.
pub open spec fn spec_repos_page(s: Seq<char>) -> Option<RepoPageModel> {
    match json_of_text(s) {
        None => None,
        Some(root) => match field(root, "data"@) {
            None => None,
            Some(data) => match field(data, "user"@) {
                None => None,
                Some(user) => match field(user, "repositories"@) {
                    None => None,
                    Some(repositories) => match (
                        field(repositories, "nodes"@),
                        field(repositories, "pageInfo"@),
                    ) {
                        (Some(JsonModel::Array(arr)), Some(p)) => match (
                            spec_repo_nodes(arr),
                            field(p, "endCursor"@),
                            field(p, "hasNextPage"@),
                        ) {
                            (
                                Some(nodes),
                                Some(JsonModel::Text(c)),
                                Some(JsonModel::Bool(b)),
                            ) => Some(
                                RepoPageModel { nodes, end_cursor: c, has_next_page: b },
                            ),
                            _ => None,
                        },
                        _ => None,
                    },
                },
            },
        },
    }
}

fn decoding_failed(cause: &str, body: &str) -> (e: Error)
    ensures
        e matches Error::DecodingFailed { cause: c, raw_body: b } && c@ == cause@ && b@ == body@,
{
    Error::DecodingFailed { cause: String::from_str(cause), raw_body: String::from_str(body) }
}

/// Reads one page of the repository listing out of a raw response body: the
/// result is exactly `spec_repos_page` of the body's text.
#[verifier::loop_isolation(false)]
pub fn decode_repos_response(body: &str) -> (r: Result<Response, Error>)
    ensures
        match r {
            Ok(resp) => spec_repos_page(body@) matches Some(m) && resp.data.user.repositories.model() == m,
            Err(e) => spec_repos_page(body@) is None && (e matches Error::DecodingFailed {
                raw_body,
                ..
            } && raw_body@ == body@),
        },
{
    let root = match parse_json(body) {
        Ok(v) => v,
        Err(cause) => {
            return Err(Error::DecodingFailed { cause, raw_body: String::from_str(body) });
        },
    };
    let data = match json_get(&root, "data") {
        Some(v) => v,
        None => {
            return Err(decoding_failed("missing field: data", body));
        },
    };
    let user = match json_get(data, "user") {
        Some(v) => v,
        None => {
            return Err(decoding_failed("missing field: user", body));
        },
    };
    let repositories = match json_get(user, "repositories") {
        Some(v) => v,
        None => {
            return Err(decoding_failed("missing field: repositories", body));
        },
    };
    let raw_nodes = match json_get(repositories, "nodes") {
        Some(v) => v,
        None => {
            return Err(decoding_failed("missing field: nodes", body));
        },
    };
    let arr = match json_as_array(raw_nodes) {
        Some(v) => v,
        None => {
            return Err(decoding_failed("nodes is not an array", body));
        },
    };
    let ghost marr: Seq<JsonModel> = json_tree(*raw_nodes)->Array_0;
    let mut nodes: Vec<Repository> = Vec::new();
    let mut i: usize = 0;
    proof {
        assert(marr.take(0int) =~= Seq::<JsonModel>::empty());
        assert(nodes@.map_values(|r: Repository| r.model()) =~= Seq::<RepoModel>::empty());
    }
    while i < arr.len()
        invariant
            0 <= i <= arr@.len(),
            spec_repo_nodes(marr.take(i as int)) == Some(
                nodes@.map_values(|r: Repository| r.model()),
            ),
        decreases arr.len() - i,
    {
        proof {
            assert(marr.take(i + 1).drop_last() =~= marr.take(i as int));
            assert(marr.take(i + 1).last() == marr[i as int]);
        }
        let node = &arr[i];
        let name = match json_get(node, "name") {
            Some(v) => match json_as_str(v) {
                Some(s) => s.to_owned(),
                None => {
                    proof {
                        lemma_repo_nodes_prefix_none(marr, i + 1);
                    }
                    return Err(decoding_failed("name is not a string", body));
                },
            },
            None => {
                proof {
                    lemma_repo_nodes_prefix_none(marr, i + 1);
                }
                return Err(decoding_failed("missing field: name", body));
            },
        };
        let is_fork = match json_get(node, "isFork") {
            Some(v) => match json_as_bool(v) {
                Some(b) => b,
                None => {
                    proof {
                        lemma_repo_nodes_prefix_none(marr, i + 1);
                    }
                    return Err(decoding_failed("isFork is not a boolean", body));
                },
            },
            None => {
                proof {
                    lemma_repo_nodes_prefix_none(marr, i + 1);
                }
                return Err(decoding_failed("missing field: isFork", body));
            },
        };
        let login = match json_get(node, "owner") {
            Some(o) => match json_get(o, "login") {
                Some(v) => match json_as_str(v) {
                    Some(s) => s.to_owned(),
                    None => {
                        proof {
                            lemma_repo_nodes_prefix_none(marr, i + 1);
                        }
                        return Err(decoding_failed("login is not a string", body));
                    },
                },
                None => {
                    proof {
                        lemma_repo_nodes_prefix_none(marr, i + 1);
                    }
                    return Err(decoding_failed("missing field: login", body));
                },
            },
            None => {
                proof {
                    lemma_repo_nodes_prefix_none(marr, i + 1);
                }
                return Err(decoding_failed("missing field: owner", body));
            },
        };
        let ghost nodes0 = nodes@;
        nodes.push(Repository { name, is_fork, owner: Owner { login } });
        proof {
            assert(nodes@.map_values(|r: Repository| r.model()) =~= nodes0.map_values(
                |r: Repository| r.model(),
            ).push(nodes@.last().model()));
        }
        i = i + 1;
    }
    proof {
        assert(marr.take(i as int) =~= marr);
    }
    let page_info = match json_get(repositories, "pageInfo") {
        Some(v) => v,
        None => {
            return Err(decoding_failed("missing field: pageInfo", body));
        },
    };
    let end_cursor = match json_get(page_info, "endCursor") {
        Some(v) => match json_as_str(v) {
            Some(s) => s.to_owned(),
            None => {
                return Err(decoding_failed("endCursor is not a string", body));
            },
        },
        None => {
            return Err(decoding_failed("missing field: endCursor", body));
        },
    };
    let has_next_page = match json_get(page_info, "hasNextPage") {
        Some(v) => match json_as_bool(v) {
            Some(b) => b,
            None => {
                return Err(decoding_failed("hasNextPage is not a boolean", body));
            },
        },
        None => {
            return Err(decoding_failed("missing field: hasNextPage", body));
        },
    };
    let page = Repositories { nodes, page_info: PageInfo { end_cursor, has_next_page } };
    proof {
        assert(page.model() =~= RepoPageModel {
            nodes: page.nodes@.map_values(|r: Repository| r.model()),
            end_cursor: page.page_info.end_cursor@,
            has_next_page: page.page_info.has_next_page,
        });
        assert(spec_repos_page(body@) == Some(page.model()));
    }
    Ok(Response { data: Data { user: User { repositories: page } } })
}

proof fn lemma_filter_take_step<A>(s: Seq<A>, i: int, pred: spec_fn(A) -> bool)
    requires
        0 <= i < s.len(),
    ensures
        s.take(i + 1).filter(pred) == if pred(s[i]) {
            s.take(i).filter(pred).push(s[i])
        } else {
            s.take(i).filter(pred)
        },
{
    reveal(Seq::filter);
    assert(s.take(i + 1).drop_last() =~= s.take(i));
    assert(s.take(i + 1).last() == s[i]);
}

/// The repositories of one listing page that are not forks, in page order,
/// with the cursor to resume from when more pages follow.
pub fn collect_page(page: Repositories) -> (r: (Vec<Repository>, Option<String>))
    ensures
        r.0@ == page.nodes@.filter(|x: Repository| !x.is_fork),
        match r.1 {
            Some(c) => page.page_info.has_next_page && c@ == page.page_info.end_cursor@,
            None => !page.page_info.has_next_page,
        },
{
    let pred = Ghost(|x: Repository| !x.is_fork);
    let mut kept: Vec<Repository> = Vec::new();
    let nodes = page.nodes;
    let mut i: usize = 0;
    proof {
        reveal(Seq::filter);
        assert(nodes@.take(0int).filter(pred@) =~= Seq::<Repository>::empty());
    }
    while i < nodes.len()
        invariant
            0 <= i <= nodes.len(),
            kept@ == nodes@.take(i as int).filter(pred@),
            pred == Ghost(|x: Repository| !x.is_fork),
        decreases nodes.len() - i,
    {
        proof {
            lemma_filter_take_step(nodes@, i as int, pred@);
        }
        let node = &nodes[i];
        if !node.is_fork {
            kept.push(node.clone());
        }
        i = i + 1;
    }
    proof {
        assert(nodes@.take(nodes@.len() as int) =~= nodes@);
    }
    let next = if page.page_info.has_next_page {
        Some(page.page_info.end_cursor)
    } else {
        None
    };
    (kept, next)
}

} // verus!
