use vstd::prelude::*;
use vstd::string::StrSliceExecFns;
use vstd::string::StringExecFns;
use crate::date::DateTime;
use crate::decimal::{spec_u64_string, u64_to_string};
use crate::errors::Error;
use crate::jsonval::{
    field, json_as_array, json_as_i64, json_as_str, json_get, json_is_null, json_of_text,
    json_tree, parse_json, JsonModel,
};
use crate::models::FirstCommit;
use crate::repositories::Repository as Repo;
use crate::timestamp::{parse_timestamp, spec_timestamp_value, valid_timestamp};

verus! {

/// How many characters the leading opaque hash of a pagination cursor has:
/// everything before the first space, or the whole text when it has none.
pub open spec fn hash_len(s: Seq<char>) -> int
    decreases s.len(),
{
    if s.len() == 0 {
        0
    } else if s[0] == ' ' {
        0
    } else {
        1 + hash_len(s.skip(1))
    }
}

proof fn lemma_hash_len_at(s: Seq<char>, i: int)
    requires
        0 <= i <= s.len(),
        forall|j: int| 0 <= j < i ==> s[j] != ' ',
        i == s.len() || s[i] == ' ',
    ensures
        hash_len(s) == i,
    decreases i,
{
    if i == 0 {
    } else {
        assert(s[0] != ' ');
        assert(forall|j: int| 0 <= j < i - 1 ==> s.skip(1)[j] == s[j + 1]);
        lemma_hash_len_at(s.skip(1), i - 1);
    }
}

/// The leading opaque hash of a pagination cursor: its text up to the first
/// space. An empty cursor is the one decoding failure.
pub fn decode_hash(cursor: &str) -> (r: Result<&str, Error>)
    ensures
        match r {
            Ok(h) => cursor@.len() > 0 && h@ == cursor@.take(hash_len(cursor@)),
            Err(e) => cursor@.len() == 0 && e is CursorMissing,
        },
{
    let len = cursor.unicode_len();
    if len == 0 {
        return Err(Error::CursorMissing);
    }
    let mut i: usize = 0;
    loop
        invariant_except_break
            0 <= i <= len,
            len == cursor@.len(),
            forall|j: int| 0 <= j < i ==> cursor@[j] != ' ',
        ensures
            0 <= i <= len,
            len == cursor@.len(),
            forall|j: int| 0 <= j < i ==> cursor@[j] != ' ',
            i == len || cursor@[i as int] == ' ',
        decreases len - i,
    {
        if i == len {
            break;
        }
        if cursor.get_char(i) == ' ' {
            break;
        }
        i = i + 1;
    }
    proof {
        lemma_hash_len_at(cursor@, i as int);
    }
    Ok(cursor.substring_char(0, i))
}

/// The position a seek cursor asks the API to skip to: two short of the
/// total, so the returned page still holds the oldest commit.
pub open spec fn spec_seek_offset(total_count: int) -> int {
    if total_count >= 2 {
        total_count - 2
    } else {
        0
    }
}

/// The seek cursor that resumes pagination from `hash`, skipping ahead to
/// `spec_seek_offset(total_count)`.
pub open spec fn spec_seek_cursor(hash: Seq<char>, total_count: int) -> Seq<char> {
    hash + seq![' '] + spec_u64_string(spec_seek_offset(total_count))
}

/// Packages an opaque cursor hash and a commit total as the single seek
/// token `"<hash> <offset>"` with `offset = max(total_count - 2, 0)`.
pub fn make_seek(hash: &str, total_count: u64) -> (s: String)
    ensures
        s@ == spec_seek_cursor(hash@, total_count as int),
{
    let offset: u64 = if total_count >= 2 {
        total_count - 2
    } else {
        0
    };
    let mut out = hash.to_owned();
    out.append(" ");
    let num = u64_to_string(offset);
    out.append(num.as_str());
    proof {
        reveal_strlit(" ");
        assert(" "@ =~= seq![' ']);
        assert(out@ =~= spec_seek_cursor(hash@, total_count as int));
    }
    out
}

pub struct PageInfo {
    pub end_cursor: String,
}

impl PageInfo {
    /// The stable opaque hash carried by this page's cursor.
    pub fn cursor(&self) -> (r: Result<&str, Error>)
        ensures
            match r {
                Ok(h) => self.end_cursor@.len() > 0 && h@ == self.end_cursor@.take(
                    hash_len(self.end_cursor@),
                ),
                Err(e) => self.end_cursor@.len() == 0 && e is CursorMissing,
            },
    {
        decode_hash(self.end_cursor.as_str())
    }
}

pub struct Commit {
    pub message: String,
    pub committed_date: DateTime,
}

impl Commit {
    pub open spec fn wf(self) -> bool {
        self.committed_date.wf()
    }

    /// This commit tagged with the repository it came from.
    fn as_first_commit(&self, repo: &Repo) -> (r: FirstCommit)
        ensures
            r.message == self.message,
            r.date == self.committed_date,
            r.name == repo.name,
            r.owner == repo.owner.login,
    {
        FirstCommit {
            message: self.message.clone(),
            date: self.committed_date,
            name: repo.name.clone(),
            owner: repo.owner.login.clone(),
        }
    }
}

pub struct History {
    pub nodes: Vec<Commit>,
    pub total_count: u64,
    pub page_info: PageInfo,
}

impl History {
    pub open spec fn wf(self) -> bool {
        forall|i: int| 0 <= i < self.nodes@.len() ==> (#[trigger] self.nodes@[i]).wf()
    }
}

pub struct Target {
    pub history: History,
}

pub struct Branch {
    pub target: Target,
}

impl Branch {
    pub open spec fn wf(self) -> bool {
        self.target.history.wf()
    }

    /// The seek cursor that lands a follow-up query on this history's last
    /// two entries.
    pub fn last_commit_cursor(&self) -> (r: Result<String, Error>)
        ensures
            match r {
                Ok(c) => {
                    &&& self.target.history.page_info.end_cursor@.len() > 0
                    &&& c@ == spec_seek_cursor(
                        self.target.history.page_info.end_cursor@.take(
                            hash_len(self.target.history.page_info.end_cursor@),
                        ),
                        self.target.history.total_count as int,
                    )
                },
                Err(e) => self.target.history.page_info.end_cursor@.len() == 0
                    && e is CursorMissing,
            },
    {
        match self.target.history.page_info.cursor() {
            Ok(hash) => Ok(make_seek(hash, self.target.history.total_count)),
            Err(e) => Err(e),
        }
    }

    /// The oldest commit of this page: its nodes run newest to oldest, so
    /// the last one.
    pub fn last_commit(&self) -> (r: Option<Commit>)
        ensures
            match r {
                Some(c) => self.target.history.nodes@.len() > 0 && c
                    == self.target.history.nodes@.last(),
                None => self.target.history.nodes@.len() == 0,
            },
    {
        let nodes = &self.target.history.nodes;
        if nodes.len() == 0 {
            None
        } else {
            let c = &nodes[nodes.len() - 1];
            Some(Commit { message: c.message.clone(), committed_date: c.committed_date })
        }
    }
}

pub struct Repository {
    pub default_branch_ref: Option<Branch>,
}

pub struct Data {
    pub repository: Repository,
}

pub struct Response {
    pub data: Data,
}

impl Response {
    pub open spec fn wf(self) -> bool {
        self.data.repository.default_branch_ref matches Some(b) ==> b.wf()
    }
}

/// The mathematical content of one commit node.
#[verifier::ext_equal]
pub struct CommitModel {
    pub message: Seq<char>,
    pub committed_date: DateTime,
}

impl Commit {
    pub open spec fn model(self) -> CommitModel {
        CommitModel { message: self.message@, committed_date: self.committed_date }
    }
}

/// The mathematical content of a decoded history page.
#[verifier::ext_equal]
pub struct HistoryModel {
    pub nodes: Seq<CommitModel>,
    pub total_count: int,
    pub end_cursor: Seq<char>,
}

impl History {
    pub open spec fn model(self) -> HistoryModel {
        HistoryModel {
            nodes: self.nodes@.map_values(|c: Commit| c.model()),
            total_count: self.total_count as int,
            end_cursor: self.page_info.end_cursor@,
        }
    }
}

/// What a first-commit response body holds: no document of the expected
/// shape, a repository without a default branch, or that branch's history.
pub enum PageModel {
    Malformed,
    NoBranch,
    History(HistoryModel),
}

/// One commit node's content: a message text and a valid timestamp text.
pub open spec fn spec_commit_node(j: JsonModel) -> Option<CommitModel> {
    match (field(j, "message"@), field(j, "committedDate"@)) {
        (Some(JsonModel::Text(m)), Some(JsonModel::Text(d))) => if valid_timestamp(d) {
            Some(CommitModel { message: m, committed_date: spec_timestamp_value(d) })
        } else {
            None
        },
        _ => None,
    }
}

/// The commit nodes of an array, in array order; `None` when any node is not
/// a well-formed commit.
pub open spec fn spec_commit_nodes(arr: Seq<JsonModel>) -> Option<Seq<CommitModel>>
    decreases arr.len(),
{
    if arr.len() == 0 {
        Some(Seq::empty())
    } else {
        match (spec_commit_nodes(arr.drop_last()), spec_commit_node(arr.last())) {
            (Some(rest), Some(c)) => Some(rest.push(c)),
            _ => None,
        }
    }
}

proof fn lemma_commit_nodes_prefix_none(arr: Seq<JsonModel>, i: int)
    requires
        0 <= i <= arr.len(),
        spec_commit_nodes(arr.take(i)) is None,
    ensures
        spec_commit_nodes(arr) is None,
    decreases arr.len() - i,
{
    if i < arr.len() {
        assert(arr.take(i + 1).drop_last() =~= arr.take(i));
        lemma_commit_nodes_prefix_none(arr, i + 1);
    } else {
        assert(arr.take(i) =~= arr);
    }
}

/// The history under a branch tree; `None` when the shape is not the
/// expected one or the commit total is negative or too large.
pub open spec fn spec_branch_history(j: JsonModel) -> Option<HistoryModel> {
    match field(j, "target"@) {
        Some(t) => match field(t, "history"@) {
            Some(h) => match (field(h, "totalCount"@), field(h, "nodes"@), field(h, "pageInfo"@)) {
                (Some(JsonModel::Int(n)), Some(JsonModel::Array(arr)), Some(p)) => if n >= 0 {
                    match (spec_commit_nodes(arr), field(p, "endCursor"@)) {
                        (Some(nodes), Some(JsonModel::Text(c))) => Some(
                            HistoryModel { nodes, total_count: n as int, end_cursor: c },
                        ),
                        _ => None,
                    }
                } else {
                    None
                },
                _ => None,
            },
            None => None,
        },
        None => None,
    }
}

/// What a first-commit response body decodes to: the branch's history, the
/// branch's absence, or nothing of the expected shape.
pub open spec fn spec_commit_page(s: Seq<char>) -> PageModel {
    match json_of_text(s) {
        None => PageModel::Malformed,
        Some(root) => match field(root, "data"@) {
            None => PageModel::Malformed,
            Some(data) => match field(data, "repository"@) {
                None => PageModel::Malformed,
                Some(repository) => match field(repository, "defaultBranchRef"@) {
                    None => PageModel::NoBranch,
                    Some(branch) => if branch is Null {
                        PageModel::NoBranch
                    } else {
                        match spec_branch_history(branch) {
                            Some(h) => PageModel::History(h),
                            None => PageModel::Malformed,
                        }
                    },
                },
            },
        },
    }
}

/// What one repository's resolution does after the combined first query.
pub enum Resolution {
    /// The default branch is absent or has no commits: the repository
    /// contributes nothing.
    Empty,
    /// The history's single commit came inlined: resolved with no second
    /// query.
    Found(FirstCommit),
    /// The history is longer: a second query must be issued with this seek
    /// cursor.
    SeekWith(String),
}

/// The per-repository decision on the first page: empty histories resolve to
/// nothing, a single inlined commit resolves immediately, and any longer
/// history asks for exactly one follow-up query through a seek cursor.
pub fn resolution_of(repo: &Repo, branch: &Option<Branch>) -> (r: Result<Resolution, Error>)
    requires
        branch matches Some(b) ==> b.wf(),
    ensures
        match branch {
            Option::None => r matches Ok(res) && res is Empty,
            Option::Some(b) => {
                let h = b.target.history;
                if h.total_count == 0 {
                    r matches Ok(res) && res is Empty
                } else if h.total_count == 1 && h.nodes@.len() > 0 {
                    &&& r matches Ok(res)
                    &&& res matches Resolution::Found(fc)
                    &&& fc.message == h.nodes@[0].message
                    &&& fc.date == h.nodes@[0].committed_date
                    &&& fc.name == repo.name
                    &&& fc.owner == repo.owner.login
                    &&& fc.wf()
                } else if h.page_info.end_cursor@.len() == 0 {
                    r matches Err(e) && e is CursorMissing
                } else {
                    &&& r matches Ok(res)
                    &&& res matches Resolution::SeekWith(c)
                    &&& c@ == spec_seek_cursor(
                        h.page_info.end_cursor@.take(hash_len(h.page_info.end_cursor@)),
                        h.total_count as int,
                    )
                }
            },
        },
{
    match branch {
        Option::None => Ok(Resolution::Empty),
        Option::Some(b) => {
            if b.target.history.total_count == 0 {
                return Ok(Resolution::Empty);
            }
            if b.target.history.total_count == 1 && b.target.history.nodes.len() > 0 {
                let fc = b.target.history.nodes[0].as_first_commit(repo);
                return Ok(Resolution::Found(fc));
            }
            match b.last_commit_cursor() {
                Ok(cursor) => Ok(Resolution::SeekWith(cursor)),
                Err(e) => Err(e),
            }
        },
    }
}

fn decoding_failed(cause: &str, body: &str) -> (e: Error)
    ensures
        e matches Error::DecodingFailed { cause: c, raw_body: b } && c@ == cause@ && b@ == body@,
{
    Error::DecodingFailed { cause: String::from_str(cause), raw_body: String::from_str(body) }
}


/// Reads a first-commit query response out of a raw response body: the
/// result is exactly `spec_commit_page` of the body's text. Negative commit
/// totals and malformed timestamps are decoding failures.
#[verifier::loop_isolation(false)]
pub fn decode_commit_response(body: &str) -> (r: Result<Response, Error>)
    ensures
        match r {
            Ok(resp) => resp.wf() && match resp.data.repository.default_branch_ref {
                Some(b) => spec_commit_page(body@) == PageModel::History(b.target.history.model()),
                None => spec_commit_page(body@) is NoBranch,
            },
            Err(e) => spec_commit_page(body@) is Malformed && (e matches Error::DecodingFailed {
                raw_body,
                ..
            } && raw_body@ == body@),
        },
{
    let root = match parse_json(body) {
        Ok(v) => v,
        Err(cause) => {
            return Err(Error::DecodingFailed { cause, raw_body: String::from_str(body) });
        },
    };
    let data = match json_get(&root, "data") {
        Some(v) => v,
        None => {
            return Err(decoding_failed("missing field: data", body));
        },
    };
    let repository = match json_get(data, "repository") {
        Some(v) => v,
        None => {
            return Err(decoding_failed("missing field: repository", body));
        },
    };
    let branch_value = match json_get(repository, "defaultBranchRef") {
        Some(v) => v,
        None => {
            return Ok(
                Response { data: Data { repository: Repository { default_branch_ref: None } } },
            );
        },
    };
    if json_is_null(branch_value) {
        return Ok(Response { data: Data { repository: Repository { default_branch_ref: None } } });
    }
    let history = match json_get(branch_value, "target") {
        Some(t) => match json_get(t, "history") {
            Some(h) => h,
            None => {
                return Err(decoding_failed("missing field: history", body));
            },
        },
        None => {
            return Err(decoding_failed("missing field: target", body));
        },
    };
    let total_count: u64 = match json_get(history, "totalCount") {
        Some(v) => match json_as_i64(v) {
            Some(n) => {
                if n < 0 {
                    return Err(decoding_failed("totalCount is negative", body));
                }
                n as u64
            },
            None => {
                return Err(decoding_failed("totalCount is not an integer", body));
            },
        },
        None => {
            return Err(decoding_failed("missing field: totalCount", body));
        },
    };
    let raw_nodes = match json_get(history, "nodes") {
        Some(v) => v,
        None => {
            return Err(decoding_failed("missing field: nodes", body));
        },
    };
    let arr = match json_as_array(raw_nodes) {
        Some(v) => v,
        None => {
            return Err(decoding_failed("nodes is not an array", body));
        },
    };
    let ghost marr: Seq<JsonModel> = json_tree(*raw_nodes)->Array_0;
    let mut nodes: Vec<Commit> = Vec::new();
    let mut i: usize = 0;
    proof {
        assert(marr.take(0int) =~= Seq::<JsonModel>::empty());
        assert(nodes@.map_values(|c: Commit| c.model()) =~= Seq::<CommitModel>::empty());
    }
    while i < arr.len()
        invariant
            0 <= i <= arr@.len(),
            spec_commit_nodes(marr.take(i as int)) == Some(
                nodes@.map_values(|c: Commit| c.model()),
            ),
            forall|k: int| 0 <= k < nodes@.len() ==> (#[trigger] nodes@[k]).wf(),
        decreases arr.len() - i,
    {
        proof {
            assert(marr.take(i + 1).drop_last() =~= marr.take(i as int));
            assert(marr.take(i + 1).last() == marr[i as int]);
        }
        let node = &arr[i];
        let message = match json_get(node, "message") {
            Some(v) => match json_as_str(v) {
                Some(s) => s.to_owned(),
                None => {
                    proof {
                        lemma_commit_nodes_prefix_none(marr, i + 1);
                    }
                    return Err(decoding_failed("message is not a string", body));
                },
            },
            None => {
                proof {
                    lemma_commit_nodes_prefix_none(marr, i + 1);
                }
                return Err(decoding_failed("missing field: message", body));
            },
        };
        let committed_date = match json_get(node, "committedDate") {
            Some(v) => match json_as_str(v) {
                Some(s) => match parse_timestamp(s) {
                    Some(dt) => dt,
                    None => {
                        proof {
                            lemma_commit_nodes_prefix_none(marr, i + 1);
                        }
                        return Err(decoding_failed("committedDate is not a timestamp", body));
                    },
                },
                None => {
                    proof {
                        lemma_commit_nodes_prefix_none(marr, i + 1);
                    }
                    return Err(decoding_failed("committedDate is not a string", body));
                },
            },
            None => {
                proof {
                    lemma_commit_nodes_prefix_none(marr, i + 1);
                }
                return Err(decoding_failed("missing field: committedDate", body));
            },
        };
        let ghost nodes0 = nodes@;
        nodes.push(Commit { message, committed_date });
        proof {
            assert(nodes@.map_values(|c: Commit| c.model()) =~= nodes0.map_values(
                |c: Commit| c.model(),
            ).push(nodes@.last().model()));
        }
        i = i + 1;
    }
    proof {
        assert(marr.take(i as int) =~= marr);
    }
    let end_cursor = match json_get(history, "pageInfo") {
        Some(p) => match json_get(p, "endCursor") {
            Some(v) => match json_as_str(v) {
                Some(s) => s.to_owned(),
                None => {
                    return Err(decoding_failed("endCursor is not a string", body));
                },
            },
            None => {
                return Err(decoding_failed("missing field: endCursor", body));
            },
        },
        None => {
            return Err(decoding_failed("missing field: pageInfo", body));
        },
    };
    let history_struct = History { nodes, total_count, page_info: PageInfo { end_cursor } };
    proof {
        assert(history_struct.model() =~= HistoryModel {
            nodes: history_struct.nodes@.map_values(|c: Commit| c.model()),
            total_count: history_struct.total_count as int,
            end_cursor: history_struct.page_info.end_cursor@,
        });
        assert(spec_commit_page(body@) == PageModel::History(history_struct.model()));
    }
    Ok(
        Response {
            data: Data {
                repository: Repository {
                    default_branch_ref: Some(Branch { target: Target { history: history_struct } }),
                },
            },
        },
    )
}

/// Wraps a failure met while resolving one repository with that repository's
/// identity; every error leaving a resolution carries it.
pub fn resolution_failure(repo: &Repo, cause: Error) -> (e: Error)
    ensures
        e.identifies(repo.owner.login@, repo.name@),
        e matches Error::RepositoryResolutionFailed { cause: c, .. } && *c == cause,
{
    Error::RepositoryResolutionFailed {
        owner: repo.owner.login.clone(),
        name: repo.name.clone(),
        cause: Box::new(cause),
    }
}

/// Decodes the combined first query's response and decides how the given
/// repository resolves, exactly as `spec_commit_page` of the body reads:
/// every failure identifies the repository.
pub fn resolve_first_page(repo: &Repo, body: &str) -> (r: Result<Resolution, Error>)
    ensures
        match r {
            Ok(res) => match spec_commit_page(body@) {
                PageModel::Malformed => false,
                PageModel::NoBranch => res is Empty,
                PageModel::History(h) => {
                    if h.total_count == 0 {
                        res is Empty
                    } else if h.total_count == 1 && h.nodes.len() > 0 {
                        &&& res matches Resolution::Found(fc)
                        &&& fc.message@ == h.nodes[0].message
                        &&& fc.date == h.nodes[0].committed_date
                        &&& fc.name@ == repo.name@
                        &&& fc.owner@ == repo.owner.login@
                        &&& fc.wf()
                    } else {
                        &&& h.end_cursor.len() > 0
                        &&& res matches Resolution::SeekWith(c)
                        &&& c@ == spec_seek_cursor(
                            h.end_cursor.take(hash_len(h.end_cursor)),
                            h.total_count,
                        )
                    }
                },
            },
            Err(e) => {
                &&& e.identifies(repo.owner.login@, repo.name@)
                &&& match spec_commit_page(body@) {
                    PageModel::Malformed => true,
                    PageModel::NoBranch => false,
                    PageModel::History(h) => h.total_count != 0 && !(h.total_count == 1
                        && h.nodes.len() > 0) && h.end_cursor.len() == 0,
                }
            },
        },
{
    let resp = match decode_commit_response(body) {
        Ok(resp) => resp,
        Err(e) => {
            return Err(resolution_failure(repo, e));
        },
    };
    match resolution_of(repo, &resp.data.repository.default_branch_ref) {
        Ok(res) => Ok(res),
        Err(e) => Err(resolution_failure(repo, e)),
    }
}

/// Decodes the seek query's response, exactly as `spec_commit_page` of the
/// body reads: the oldest returned node is the first commit, and a page
/// without nodes or without a branch resolves to nothing rather than
/// failing. Every failure identifies the repository.
pub fn resolve_seek_page(repo: &Repo, body: &str) -> (r: Result<Option<FirstCommit>, Error>)
    ensures
        match r {
            Ok(res) => match spec_commit_page(body@) {
                PageModel::Malformed => false,
                PageModel::NoBranch => res is None,
                PageModel::History(h) => {
                    if h.nodes.len() == 0 {
                        res is None
                    } else {
                        &&& res matches Some(fc)
                        &&& fc.message@ == h.nodes.last().message
                        &&& fc.date == h.nodes.last().committed_date
                        &&& fc.name@ == repo.name@
                        &&& fc.owner@ == repo.owner.login@
                        &&& fc.wf()
                    }
                },
            },
            Err(e) => spec_commit_page(body@) is Malformed && e.identifies(
                repo.owner.login@,
                repo.name@,
            ),
        },
{
    let resp = match decode_commit_response(body) {
        Ok(resp) => resp,
        Err(e) => {
            return Err(resolution_failure(repo, e));
        },
    };
    match &resp.data.repository.default_branch_ref {
        None => Ok(None),
        Some(branch) => match branch.last_commit() {
            Some(commit) => Ok(Some(commit.as_first_commit(repo))),
            None => Ok(None),
        },
    }
}

} // verus!
