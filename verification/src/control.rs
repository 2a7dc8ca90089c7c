//! Control plane model: the durable register of users, API keys, apps and
//! nodes, the scheduler that places apps on least-loaded capable nodes, the
//! deploy decision with its tier and size limits, and subdomain resolution.

use vstd::prelude::*;
use vstd::string::StringSliceAdditionalSpecFns;
use crate::data::string_bytes;

verus! {

/// Largest accepted bundle, in bytes.
pub const MAX_BUNDLE_BYTES: usize = 5242880;

/// A registered user.
pub struct User {
    pub id: String,
    pub email: String,
    pub tier: String,
    pub created_at: String,
}

/// A deployed app: its routing key, optional unique vanity name, owner, and
/// the one node it lives on.
pub struct App {
    pub id: String,
    pub name: Option<String>,
    pub user_id: String,
    pub node_id: String,
    pub created_at: String,
    pub updated_at: String,
}

/// A capacity-bearing compute node.
pub struct Node {
    pub id: String,
    pub ip: String,
    pub port: i64,
    pub region: String,
    pub app_count: i64,
    pub max_apps: i64,
    pub status: String,
    pub civo_instance_id: Option<String>,
    pub created_at: String,
}

/// Control-plane error taxonomy; each maps to one HTTP status class.
pub enum AppError {
    Database(String),
    Unauthorized,
    Forbidden(String),
    NotFound(String),
    BadRequest(String),
    Internal(String),
    Upstream(String),
}

impl AppError {
    /// The HTTP status code this error maps to.
    pub fn status_code(&self) -> (r: u16)
        ensures
            r == match self {
                AppError::Database(_) => 500u16,
                AppError::Unauthorized => 401u16,
                AppError::Forbidden(_) => 403u16,
                AppError::NotFound(_) => 404u16,
                AppError::BadRequest(_) => 400u16,
                AppError::Internal(_) => 500u16,
                AppError::Upstream(_) => 502u16,
            },
    {
        match self {
            AppError::Database(_) => 500,
            AppError::Unauthorized => 401,
            AppError::Forbidden(_) => 403,
            AppError::NotFound(_) => 404,
            AppError::BadRequest(_) => 400,
            AppError::Internal(_) => 500,
            AppError::Upstream(_) => 502,
        }
    }
}

/// Per-tier resource limits.
pub struct TierLimits {
    pub max_apps: i64,
    pub max_sse_clients: i64,
    pub max_requests_month: i64,
}

/// The limits of a pricing tier; unknown tiers get the free tier's limits.
pub fn tier_limits(tier: &str) -> (r: TierLimits)
    ensures
        r.max_apps == spec_tier_max_apps(tier.spec_bytes()),
        ({
            let t = tier.spec_bytes();
            if t == "pro".spec_bytes() {
                r.max_sse_clients == 50 && r.max_requests_month == 100000
            } else if t == "scale".spec_bytes() {
                r.max_sse_clients == 500 && r.max_requests_month == 1000000
            } else {
                r.max_sse_clients == 50 && r.max_requests_month == 100000
            }
        }),
        r.max_apps >= 20,
    {
    if crate::parse::bytes_eq(tier.as_bytes(), "pro".as_bytes()) {
        TierLimits { max_apps: 20, max_sse_clients: 50, max_requests_month: 100000 }
    } else if crate::parse::bytes_eq(tier.as_bytes(), "scale".as_bytes()) {
        TierLimits { max_apps: 1000, max_sse_clients: 500, max_requests_month: 1000000 }
    } else {
        TierLimits { max_apps: 100, max_sse_clients: 50, max_requests_month: 100000 }
    }
}

/// Number of apps assigned to the node with this id.
pub open spec fn spec_count_on(apps: Seq<App>, nid: Seq<u8>) -> int {
    apps.filter((|a: App| string_bytes(a.node_id) == nid)).len() as int
}

/// Whether a node can accept another app: active with spare capacity.
pub open spec fn spec_node_eligible(n: Node) -> bool {
    string_bytes(n.status) == "active".spec_bytes() && n.app_count < n.max_apps
}

/// Whether an app row matches a subdomain: by id or vanity name.
pub open spec fn spec_app_matches_subdomain(a: App, sub: Seq<u8>) -> bool {
    string_bytes(a.id) == sub || (a.name matches Some(n) && string_bytes(n) == sub)
}

/// Index of the first node row with this id, if any.
pub open spec fn spec_find_node(nodes: Seq<Node>, nid: Seq<u8>) -> Option<int>
    decreases nodes.len(),
{
    if nodes.len() <= 0 {
        None
    } else if string_bytes(nodes[0].id) == nid {
        Some(0int)
    } else {
        match spec_find_node(nodes.drop_first(), nid) {
            Some(i) => Some(i + 1),
            None => None,
        }
    }
}

proof fn lemma_find_node_prefix(nodes: Seq<Node>, nid: Seq<u8>, i: int)
    requires
        0 <= i <= nodes.len(),
        forall|j: int| 0 <= j < i ==> string_bytes((#[trigger] nodes[j]).id) != nid,
    ensures
        spec_find_node(nodes, nid) == match spec_find_node(nodes.skip(i), nid) {
            Some(k) => Some(k + i),
            None => None::<int>,
        },
    decreases i,
{
    if i > 0 {
        lemma_find_node_prefix(nodes.drop_first(), nid, i - 1);
        assert(nodes.drop_first().skip(i - 1) =~= nodes.skip(i));
    } else {
        assert(nodes.skip(0) =~= nodes);
    }
}

/// A found node index carries the id it was found by.
proof fn lemma_find_node_some(nodes: Seq<Node>, nid: Seq<u8>, j: int)
    requires
        spec_find_node(nodes, nid) == Some(j),
    ensures
        0 <= j < nodes.len(),
        string_bytes(nodes[j].id) == nid,
    decreases nodes.len(),
{
    if nodes.len() > 0 && string_bytes(nodes[0].id) != nid {
        lemma_find_node_some(nodes.drop_first(), nid, j - 1);
    }
}

/// A node row with the id exists exactly when the first match exists.
pub proof fn lemma_find_node_present(nodes: Seq<Node>, nid: Seq<u8>, j: int)
    requires
        0 <= j < nodes.len(),
        string_bytes(nodes[j].id) == nid,
    ensures
        spec_find_node(nodes, nid) is Some,
    decreases nodes.len(),
{
    if string_bytes(nodes[0].id) != nid {
        lemma_find_node_present(nodes.drop_first(), nid, j - 1);
    }
}

/// Index of the first stored API key with this digest, if any.
pub open spec fn spec_find_key(keys: Seq<(String, String)>, digest: Seq<u8>) -> Option<int>
    decreases keys.len(),
{
    if keys.len() <= 0 {
        None
    } else if string_bytes(keys[0].0) == digest {
        Some(0int)
    } else {
        match spec_find_key(keys.drop_first(), digest) {
            Some(i) => Some(i + 1),
            None => None,
        }
    }
}

proof fn lemma_find_key_prefix(keys: Seq<(String, String)>, digest: Seq<u8>, i: int)
    requires
        0 <= i <= keys.len(),
        forall|j: int| 0 <= j < i ==> string_bytes((#[trigger] keys[j]).0) != digest,
    ensures
        spec_find_key(keys, digest) == match spec_find_key(keys.skip(i), digest) {
            Some(k) => Some(k + i),
            None => None::<int>,
        },
    decreases i,
{
    if i > 0 {
        lemma_find_key_prefix(keys.drop_first(), digest, i - 1);
        assert(keys.drop_first().skip(i - 1) =~= keys.skip(i));
    } else {
        assert(keys.skip(0) =~= keys);
    }
}

/// The durable control-plane state: users, API key digests, apps and nodes.
pub struct Registry {
    pub users: Vec<User>,
    pub api_keys: Vec<(String, String)>,
    pub apps: Vec<App>,
    pub nodes: Vec<Node>,
}

impl Registry {
    /// Well-formedness: node ids are unique, and every node's counter equals
    /// the number of apps assigned to it and stays within its capacity.
    pub open spec fn wf(&self) -> bool {
        &&& forall|i: int, j: int| 0 <= i < j < self.nodes@.len()
            ==> string_bytes((#[trigger] self.nodes@[i]).id)
                != string_bytes((#[trigger] self.nodes@[j]).id)
        &&& forall|i: int| 0 <= i < self.nodes@.len()
            ==> (#[trigger] self.nodes@[i]).app_count == spec_count_on(
                self.apps@,
                string_bytes(self.nodes@[i].id),
            )
        &&& forall|i: int| 0 <= i < self.nodes@.len()
            ==> (#[trigger] self.nodes@[i]).app_count <= self.nodes@[i].max_apps
    }

    pub fn new() -> (r: Registry)
        ensures
            r.wf(),
            r.users@.len() == 0,
            r.api_keys@.len() == 0,
            r.apps@.len() == 0,
            r.nodes@.len() == 0,
    {
        let r = Registry {
            users: Vec::new(),
            api_keys: Vec::new(),
            apps: Vec::new(),
            nodes: Vec::new(),
        };
        proof {
            assert(r.apps@.filter((|a: App| string_bytes(a.node_id)
                == string_bytes(r.nodes@[0].id))).len() == 0) by {
                reveal(Seq::filter);
            }
        }
        r
    }

    /// First user with this email, if any.
    pub fn get_user_by_email(&self, email: &str) -> (r: Option<usize>)
        ensures
            match r {
                Some(i) => i < self.users@.len()
                    && string_bytes(self.users@[i as int].email) == email.spec_bytes(),
                None => forall|j: int| 0 <= j < self.users@.len()
                    ==> string_bytes((#[trigger] self.users@[j]).email) != email.spec_bytes(),
            },
    {
        let mut i: usize = 0;
        let n = self.users.len();
        while i < n
            invariant
                n == self.users@.len(),
                i <= n,
                forall|j: int| 0 <= j < i
                    ==> string_bytes((#[trigger] self.users@[j]).email) != email.spec_bytes(),
            decreases n - i,
        {
            if crate::parse::bytes_eq(self.users[i].email.as_str().as_bytes(), email.as_bytes()) {
                return Some(i);
            }
            i = i + 1;
        }
        None
    }

    /// First user with this id, if any.
    pub fn get_user(&self, id: &str) -> (r: Option<usize>)
        ensures
            match r {
                Some(i) => i < self.users@.len()
                    && string_bytes(self.users@[i as int].id) == id.spec_bytes(),
                None => forall|j: int| 0 <= j < self.users@.len()
                    ==> string_bytes((#[trigger] self.users@[j]).id) != id.spec_bytes(),
            },
    {
        let mut i: usize = 0;
        let n = self.users.len();
        while i < n
            invariant
                n == self.users@.len(),
                i <= n,
                forall|j: int| 0 <= j < i
                    ==> string_bytes((#[trigger] self.users@[j]).id) != id.spec_bytes(),
            decreases n - i,
        {
            if crate::parse::bytes_eq(self.users[i].id.as_str().as_bytes(), id.as_bytes()) {
                return Some(i);
            }
            i = i + 1;
        }
        None
    }

    /// Register a user row.
    pub fn create_user(&mut self, user: User)
        requires
            old(self).wf(),
        ensures
            final(self).wf(),
            final(self).users@ == old(self).users@.push(user),
            final(self).apps == old(self).apps,
            final(self).nodes == old(self).nodes,
            final(self).api_keys == old(self).api_keys,
    {
        self.users.push(user);
    }

    /// Store an API key digest for a user.
    pub fn store_api_key(&mut self, key_hash: String, user_id: String)
        requires
            old(self).wf(),
        ensures
            final(self).wf(),
            final(self).api_keys@ == old(self).api_keys@.push((key_hash, user_id)),
            final(self).apps == old(self).apps,
            final(self).nodes == old(self).nodes,
            final(self).users == old(self).users,
    {
        self.api_keys.push((key_hash, user_id));
    }

    /// The user owning the API key with this digest, if any.
    pub fn get_user_by_key_hash(&self, key_hash: &str) -> (r: Option<usize>)
        ensures
            match spec_find_key(self.api_keys@, key_hash.spec_bytes()) {
                Some(k) => match r {
                    Some(u) => u < self.users@.len()
                        && string_bytes(self.users@[u as int].id)
                            == string_bytes(self.api_keys@[k].1),
                    None => forall|j: int| 0 <= j < self.users@.len()
                        ==> string_bytes((#[trigger] self.users@[j]).id)
                            != string_bytes(self.api_keys@[k].1),
                },
                None => r is None,
            },
    {
        let mut i: usize = 0;
        let n = self.api_keys.len();
        while i < n
            invariant
                n == self.api_keys@.len(),
                i <= n,
                forall|j: int| 0 <= j < i
                    ==> string_bytes((#[trigger] self.api_keys@[j]).0) != key_hash.spec_bytes(),
            decreases n - i,
        {
            if crate::parse::bytes_eq(
                self.api_keys[i].0.as_str().as_bytes(),
                key_hash.as_bytes(),
            ) {
                proof {
                    lemma_find_key_prefix(self.api_keys@, key_hash.spec_bytes(), i as int);
                    assert(self.api_keys@.skip(i as int)[0] == self.api_keys@[i as int]);
                }
                let uid = self.api_keys[i].1.as_str();
                return self.get_user(uid);
            }
            i = i + 1;
        }
        proof {
            lemma_find_key_prefix(self.api_keys@, key_hash.spec_bytes(), i as int);
        }
        None
    }

    /// First app with this id, if any.
    pub fn get_app(&self, id: &str) -> (r: Option<usize>)
        ensures
            match r {
                Some(i) => i < self.apps@.len()
                    && string_bytes(self.apps@[i as int].id) == id.spec_bytes(),
                None => forall|j: int| 0 <= j < self.apps@.len()
                    ==> string_bytes((#[trigger] self.apps@[j]).id) != id.spec_bytes(),
            },
    {
        let mut i: usize = 0;
        let n = self.apps.len();
        while i < n
            invariant
                n == self.apps@.len(),
                i <= n,
                forall|j: int| 0 <= j < i
                    ==> string_bytes((#[trigger] self.apps@[j]).id) != id.spec_bytes(),
            decreases n - i,
        {
            if crate::parse::bytes_eq(self.apps[i].id.as_str().as_bytes(), id.as_bytes()) {
                return Some(i);
            }
            i = i + 1;
        }
        None
    }

    /// First app with this vanity name, if any.
    pub fn get_app_by_name(&self, name: &str) -> (r: Option<usize>)
        ensures
            match r {
                Some(i) => i < self.apps@.len()
                    && self.apps@[i as int].name is Some
                    && string_bytes(self.apps@[i as int].name.unwrap()) == name.spec_bytes(),
                None => forall|j: int| 0 <= j < self.apps@.len()
                    ==> !((#[trigger] self.apps@[j]).name is Some
                        && string_bytes(self.apps@[j].name.unwrap()) == name.spec_bytes()),
            },
    {
        let mut i: usize = 0;
        let n = self.apps.len();
        while i < n
            invariant
                n == self.apps@.len(),
                i <= n,
                forall|j: int| 0 <= j < i
                    ==> !((#[trigger] self.apps@[j]).name is Some
                        && string_bytes(self.apps@[j].name.unwrap()) == name.spec_bytes()),
            decreases n - i,
        {
            match &self.apps[i].name {
                Some(nm) => {
                    if crate::parse::bytes_eq(nm.as_str().as_bytes(), name.as_bytes()) {
                        return Some(i);
                    }
                },
                None => {},
            }
            i = i + 1;
        }
        None
    }

    /// Number of apps owned by a user.
    pub fn count_apps_for_user(&self, user_id: &str) -> (r: usize)
        ensures
            r == self.apps@.filter(
                (|a: App| string_bytes(a.user_id) == user_id.spec_bytes()),
            ).len(),
    {
        let ghost pred = (|a: App| string_bytes(a.user_id) == user_id.spec_bytes());
        let mut count: usize = 0;
        let mut i: usize = 0;
        let n = self.apps.len();
        proof {
            reveal(Seq::filter);
            assert(self.apps@.take(0).filter(pred) =~= Seq::<App>::empty());
        }
        #[verifier::loop_isolation(false)]
        while i < n
            invariant
                n == self.apps@.len(),
                i <= n,
                count == self.apps@.take(i as int).filter(pred).len(),
            decreases n - i,
        {
            proof {
                reveal_with_fuel(Seq::filter, 2);
                assert(self.apps@.take(i + 1).drop_last() =~= self.apps@.take(i as int));
                assert(self.apps@.take(i + 1).last() == self.apps@[i as int]);
                self.apps@.take(i as int).lemma_filter_len(pred);
            }
            if crate::parse::bytes_eq(
                self.apps[i].user_id.as_str().as_bytes(),
                user_id.as_bytes(),
            ) {
                count = count + 1;
            }
            i = i + 1;
        }
        proof {
            assert(self.apps@.take(n as int) =~= self.apps@);
        }
        count
    }

    /// The scheduler: an active node with spare capacity and minimal load,
    /// if any exists.
    pub fn select_node(&self) -> (r: Option<usize>)
        ensures
            match r {
                Some(i) => i < self.nodes@.len()
                    && spec_node_eligible(self.nodes@[i as int])
                    && forall|j: int| 0 <= j < self.nodes@.len()
                        && spec_node_eligible(#[trigger] self.nodes@[j])
                        ==> self.nodes@[i as int].app_count <= self.nodes@[j].app_count,
                None => forall|j: int| 0 <= j < self.nodes@.len()
                    ==> !spec_node_eligible(#[trigger] self.nodes@[j]),
            },
    {
        let mut best: Option<usize> = None;
        let mut i: usize = 0;
        let n = self.nodes.len();
        while i < n
            invariant
                n == self.nodes@.len(),
                i <= n,
                match best {
                    Some(b) => b < i
                        && spec_node_eligible(self.nodes@[b as int])
                        && forall|j: int| 0 <= j < i
                            && spec_node_eligible(#[trigger] self.nodes@[j])
                            ==> self.nodes@[b as int].app_count <= self.nodes@[j].app_count,
                    None => forall|j: int| 0 <= j < i
                        ==> !spec_node_eligible(#[trigger] self.nodes@[j]),
                },
            decreases n - i,
        {
            let node = &self.nodes[i];
            let eligible = crate::parse::bytes_eq(
                node.status.as_str().as_bytes(),
                "active".as_bytes(),
            ) && node.app_count < node.max_apps;
            if eligible {
                match best {
                    Some(b) => {
                        if node.app_count < self.nodes[b].app_count {
                            best = Some(i);
                        }
                    },
                    None => {
                        best = Some(i);
                    },
                }
            }
            i = i + 1;
        }
        best
    }

    /// Register a node row with a zero app counter.
    pub fn create_node(&mut self, node: Node) -> (ok: bool)
        requires
            old(self).wf(),
            node.app_count == 0,
            node.max_apps >= 0,
            spec_count_on(old(self).apps@, string_bytes(node.id)) == 0,
        ensures
            final(self).wf(),
            ok ==> final(self).nodes@ == old(self).nodes@.push(node),
            !ok ==> *final(self) == *old(self),
            final(self).apps == old(self).apps,
            final(self).users == old(self).users,
            final(self).api_keys == old(self).api_keys,
            ok == (forall|j: int| 0 <= j < old(self).nodes@.len()
                ==> string_bytes((#[trigger] old(self).nodes@[j]).id)
                    != string_bytes(node.id)),
    {
        let mut i: usize = 0;
        let n = self.nodes.len();
        #[verifier::loop_isolation(false)]
        while i < n
            invariant
                n == self.nodes@.len(),
                i <= n,
                forall|j: int| 0 <= j < i
                    ==> string_bytes((#[trigger] self.nodes@[j]).id) != string_bytes(node.id),
            decreases n - i,
        {
            if crate::parse::bytes_eq(
                self.nodes[i].id.as_str().as_bytes(),
                node.id.as_str().as_bytes(),
            ) {
                return false;
            }
            i = i + 1;
        }
        let ghost pre = self.nodes@;
        self.nodes.push(node);
        proof {
            assert(self.nodes@.drop_last() =~= pre);
            assert forall|k: int| 0 <= k < self.nodes@.len()
                implies (#[trigger] self.nodes@[k]).app_count == spec_count_on(
                    self.apps@,
                    string_bytes(self.nodes@[k].id),
                ) && self.nodes@[k].app_count <= self.nodes@[k].max_apps by {
                if k < pre.len() {
                    assert(self.nodes@[k] == pre[k]);
                }
            }
        }
        true
    }

    /// Place a newly created app on a node: insert the app row and increment
    /// the node's counter. Succeeds only when the node exists, has capacity,
    /// and the app id is new.
    pub fn create_app(&mut self, app: App, node_idx: usize) -> (ok: bool)
        requires
            old(self).wf(),
            node_idx < old(self).nodes@.len(),
            string_bytes(app.node_id) == string_bytes(old(self).nodes@[node_idx as int].id),
            spec_node_eligible(old(self).nodes@[node_idx as int]),
        ensures
            final(self).wf(),
            ok,
            final(self).users == old(self).users,
            final(self).api_keys == old(self).api_keys,
            ok ==> final(self).apps@ == old(self).apps@.push(app),
            ok ==> final(self).nodes@.len() == old(self).nodes@.len()
                && final(self).nodes@[node_idx as int].app_count
                    == old(self).nodes@[node_idx as int].app_count + 1
                && final(self).nodes@[node_idx as int].id
                    == old(self).nodes@[node_idx as int].id
                && final(self).nodes@[node_idx as int].ip
                    == old(self).nodes@[node_idx as int].ip
                && final(self).nodes@[node_idx as int].port
                    == old(self).nodes@[node_idx as int].port
                && forall|j: int| 0 <= j < old(self).nodes@.len() && j != node_idx
                    ==> #[trigger] final(self).nodes@[j] == old(self).nodes@[j],
            !ok ==> *final(self) == *old(self),
    {
        let ghost nid = string_bytes(self.nodes@[node_idx as int].id);
        let mut entry = self.nodes.remove(node_idx);
        entry.app_count = entry.app_count + 1;
        self.nodes.insert(node_idx, entry);
        proof {
            assert(self.nodes@ =~= old(self).nodes@.update(
                node_idx as int,
                self.nodes@[node_idx as int],
            ));
        }
        let ghost pre_apps = self.apps@;
        let ghost pushed = app;
        self.apps.push(app);
        proof {
            assert(self.apps@.drop_last() =~= pre_apps);
            assert forall|k: int| 0 <= k < self.nodes@.len()
                implies (#[trigger] self.nodes@[k]).app_count == spec_count_on(
                    self.apps@,
                    string_bytes(self.nodes@[k].id),
                ) && self.nodes@[k].app_count <= self.nodes@[k].max_apps by {
                let knid = string_bytes(self.nodes@[k].id);
                lemma_count_on_push(pre_apps, self.apps@.last(), knid);
                if k != node_idx {
                    assert(self.nodes@[k] == old(self).nodes@[k]);
                    assert(knid != nid);
                }
            }
        }
        true
    }

    /// Touch an app row on redeploy: the timestamp changes, the placement is
    /// kept (moving an app between nodes would desynchronize the counters).
    pub fn update_app_node(&mut self, app_idx: usize, updated_at: String)
        requires
            old(self).wf(),
            app_idx < old(self).apps@.len(),
        ensures
            final(self).wf(),
            final(self).apps@.len() == old(self).apps@.len(),
            final(self).apps@[app_idx as int].id == old(self).apps@[app_idx as int].id,
            final(self).apps@[app_idx as int].node_id
                == old(self).apps@[app_idx as int].node_id,
            final(self).apps@[app_idx as int].user_id
                == old(self).apps@[app_idx as int].user_id,
            final(self).apps@[app_idx as int].updated_at == updated_at,
            forall|j: int| 0 <= j < old(self).apps@.len() && j != app_idx
                ==> #[trigger] final(self).apps@[j] == old(self).apps@[j],
            final(self).nodes == old(self).nodes,
            final(self).users == old(self).users,
            final(self).api_keys == old(self).api_keys,
    {
        let mut entry = self.apps.remove(app_idx);
        entry.updated_at = updated_at;
        self.apps.insert(app_idx, entry);
        proof {
            assert(self.apps@ =~= old(self).apps@.update(
                app_idx as int,
                self.apps@[app_idx as int],
            ));
            assert forall|k: int| 0 <= k < self.nodes@.len()
                implies (#[trigger] self.nodes@[k]).app_count == spec_count_on(
                    self.apps@,
                    string_bytes(self.nodes@[k].id),
                ) by {
                let knid = string_bytes(self.nodes@[k].id);
                lemma_count_on_update_same(old(self).apps@, app_idx as int,
                    self.apps@[app_idx as int], knid);
            }
        }
    }

    /// Delete an app row and decrement its node's counter (clamped at zero).
    pub fn delete_app(&mut self, app_idx: usize)
        requires
            old(self).wf(),
            app_idx < old(self).apps@.len(),
        ensures
            final(self).wf(),
            final(self).apps@ == old(self).apps@.remove(app_idx as int),
            final(self).users == old(self).users,
            final(self).api_keys == old(self).api_keys,
            final(self).nodes@.len() == old(self).nodes@.len(),
            forall|j: int| 0 <= j < final(self).nodes@.len()
                ==> (#[trigger] final(self).nodes@[j]).app_count >= 0,
            // every node row keeps its identity and configuration
            forall|j: int| 0 <= j < old(self).nodes@.len()
                ==> (#[trigger] final(self).nodes@[j]).id == old(self).nodes@[j].id
                    && final(self).nodes@[j].ip == old(self).nodes@[j].ip
                    && final(self).nodes@[j].port == old(self).nodes@[j].port
                    && final(self).nodes@[j].region == old(self).nodes@[j].region
                    && final(self).nodes@[j].max_apps == old(self).nodes@[j].max_apps
                    && final(self).nodes@[j].status == old(self).nodes@[j].status
                    && final(self).nodes@[j].civo_instance_id
                        == old(self).nodes@[j].civo_instance_id
                    && final(self).nodes@[j].created_at == old(self).nodes@[j].created_at,
            // only the deleted app's node loses one, clamped at zero
            forall|j: int| 0 <= j < old(self).nodes@.len()
                && string_bytes((#[trigger] old(self).nodes@[j]).id)
                    != string_bytes(old(self).apps@[app_idx as int].node_id)
                ==> final(self).nodes@[j].app_count == old(self).nodes@[j].app_count,
            forall|j: int| 0 <= j < old(self).nodes@.len()
                && string_bytes((#[trigger] old(self).nodes@[j]).id)
                    == string_bytes(old(self).apps@[app_idx as int].node_id)
                ==> final(self).nodes@[j].app_count == (if old(self).nodes@[j].app_count > 0 {
                    old(self).nodes@[j].app_count - 1
                } else {
                    0int
                }),
    {
        let removed = self.apps.remove(app_idx);
        let ghost rnid = string_bytes(removed.node_id);
        let mut ni: usize = 0;
        let n = self.nodes.len();
        #[verifier::loop_isolation(false)]
        while ni < n
            invariant
                n == self.nodes@.len(),
                ni <= n,
                self.nodes == old(self).nodes,
                self.apps@ == old(self).apps@.remove(app_idx as int),
                self.users == old(self).users,
                self.api_keys == old(self).api_keys,
                forall|j: int| 0 <= j < ni
                    ==> string_bytes((#[trigger] self.nodes@[j]).id) != rnid,
            decreases n - ni,
        {
            if crate::parse::bytes_eq(
                self.nodes[ni].id.as_str().as_bytes(),
                removed.node_id.as_str().as_bytes(),
            ) {
                let ghost matched = ni as int;
                let mut entry = self.nodes.remove(ni);
                proof {
                    assert(string_bytes(old(self).nodes@[matched].id) == rnid);
                    lemma_count_on_remove(old(self).apps@, app_idx as int, rnid);
                    lemma_count_on_nonneg(self.apps@, rnid);
                    assert(old(self).nodes@[matched].app_count
                        == spec_count_on(old(self).apps@, rnid));
                    assert(spec_count_on(old(self).apps@, rnid) >= 1);
                }
                entry.app_count = entry.app_count - 1;
                self.nodes.insert(ni, entry);
                proof {
                    assert(self.nodes@ =~= old(self).nodes@.update(
                        matched,
                        self.nodes@[matched],
                    ));
                    assert forall|k: int| 0 <= k < self.nodes@.len()
                        implies (#[trigger] self.nodes@[k]).app_count == spec_count_on(
                            self.apps@,
                            string_bytes(self.nodes@[k].id),
                        ) && self.nodes@[k].app_count <= self.nodes@[k].max_apps
                        && self.nodes@[k].app_count >= 0 by {
                        let knid = string_bytes(self.nodes@[k].id);
                        lemma_count_on_remove(old(self).apps@, app_idx as int, knid);
                        lemma_count_on_nonneg(self.apps@, knid);
                        if k != matched {
                            assert(self.nodes@[k] == old(self).nodes@[k]);
                            assert(string_bytes(old(self).nodes@[k].id)
                                != string_bytes(old(self).nodes@[matched].id));
                        }
                    }
                }
                return;
            }
            ni = ni + 1;
        }
        proof {
            assert forall|k: int| 0 <= k < self.nodes@.len()
                implies (#[trigger] self.nodes@[k]).app_count == spec_count_on(
                    self.apps@,
                    string_bytes(self.nodes@[k].id),
                ) && self.nodes@[k].app_count >= 0 by {
                let knid = string_bytes(self.nodes@[k].id);
                assert(knid != rnid);
                lemma_count_on_remove(old(self).apps@, app_idx as int, knid);
                lemma_count_on_nonneg(self.apps@, knid);
            }
        }
    }

    /// First node row with this id, if any.
    pub fn find_node_by_id(&self, nid: &str) -> (r: Option<usize>)
        ensures
            match r {
                Some(j) => Some(j as int) == spec_find_node(self.nodes@, nid.spec_bytes())
                    && j < self.nodes@.len(),
                None => spec_find_node(self.nodes@, nid.spec_bytes()) is None,
            },
    {
        let mut j: usize = 0;
        let m = self.nodes.len();
        while j < m
            invariant
                m == self.nodes@.len(),
                j <= m,
                forall|k: int| 0 <= k < j
                    ==> string_bytes((#[trigger] self.nodes@[k]).id) != nid.spec_bytes(),
            decreases m - j,
        {
            if crate::parse::bytes_eq(self.nodes[j].id.as_str().as_bytes(), nid.as_bytes()) {
                proof {
                    lemma_find_node_prefix(self.nodes@, nid.spec_bytes(), j as int);
                    assert(self.nodes@.skip(j as int)[0] == self.nodes@[j as int]);
                }
                return Some(j);
            }
            j = j + 1;
        }
        proof {
            lemma_find_node_prefix(self.nodes@, nid.spec_bytes(), j as int);
        }
        None
    }

    /// Resolve a subdomain to its app and node: the first app whose id or
    /// vanity name equals the subdomain and whose node row exists, joined
    /// with that node.
    pub fn resolve_subdomain(&self, sub: &str) -> (r: Option<(usize, usize)>)
        ensures
            match r {
                Some((a, ni)) => a < self.apps@.len() && ni < self.nodes@.len()
                    && spec_app_matches_subdomain(self.apps@[a as int], sub.spec_bytes())
                    && Some(ni as int) == spec_find_node(
                        self.nodes@,
                        string_bytes(self.apps@[a as int].node_id),
                    )
                    && string_bytes(self.nodes@[ni as int].id)
                        == string_bytes(self.apps@[a as int].node_id),
                None => forall|i: int| 0 <= i < self.apps@.len()
                    && spec_app_matches_subdomain(#[trigger] self.apps@[i], sub.spec_bytes())
                    ==> spec_find_node(
                        self.nodes@,
                        string_bytes(self.apps@[i].node_id),
                    ) is None,
            },
    {
        let mut i: usize = 0;
        let n = self.apps.len();
        while i < n
            invariant
                n == self.apps@.len(),
                i <= n,
                forall|k: int| 0 <= k < i
                    && spec_app_matches_subdomain(#[trigger] self.apps@[k], sub.spec_bytes())
                    ==> spec_find_node(
                        self.nodes@,
                        string_bytes(self.apps@[k].node_id),
                    ) is None,
            decreases n - i,
        {
            let a = &self.apps[i];
            let mut matches = crate::parse::bytes_eq(a.id.as_str().as_bytes(), sub.as_bytes());
            if !matches {
                match &a.name {
                    Some(nm) => {
                        matches = crate::parse::bytes_eq(nm.as_str().as_bytes(), sub.as_bytes());
                    },
                    None => {},
                }
            }
            if matches {
                proof {
                    assert(spec_app_matches_subdomain(self.apps@[i as int], sub.spec_bytes()));
                }
                let nid: &str = self.apps[i].node_id.as_str();
                proof {
                    assert(nid.spec_bytes() =~= string_bytes(self.apps@[i as int].node_id));
                }
                match self.find_node_by_id(nid) {
                    Some(j) => {
                        proof {
                            assert(spec_find_node(
                                self.nodes@,
                                string_bytes(self.apps@[i as int].node_id),
                            ) == Some(j as int));
                            assert(string_bytes(self.nodes@[j as int].id)
                                == string_bytes(self.apps@[i as int].node_id)) by {
                                lemma_find_node_some(self.nodes@, nid.spec_bytes(), j as int);
                            }
                        }
                        return Some((i, j));
                    },
                    None => {},
                }
            }
            i = i + 1;
        }
        None
    }
}

/// The count on any node id is non-negative.
proof fn lemma_count_on_nonneg(apps: Seq<App>, nid: Seq<u8>)
    ensures
        spec_count_on(apps, nid) >= 0,
{
}

/// Appending one app raises exactly its own node's count by one.
proof fn lemma_count_on_push(apps: Seq<App>, a: App, nid: Seq<u8>)
    ensures
        spec_count_on(apps.push(a), nid) == spec_count_on(apps, nid)
            + (if string_bytes(a.node_id) == nid { 1int } else { 0int }),
{
    reveal_with_fuel(Seq::filter, 2);
    assert(apps.push(a).drop_last() =~= apps);
    assert(apps.push(a).last() == a);
}

/// Replacing an app with one on the same node keeps every count.
proof fn lemma_count_on_update_same(apps: Seq<App>, i: int, e: App, nid: Seq<u8>)
    requires
        0 <= i < apps.len(),
        string_bytes(e.node_id) == string_bytes(apps[i].node_id),
    ensures
        spec_count_on(apps.update(i, e), nid) == spec_count_on(apps, nid),
    decreases apps.len(),
{
    reveal_with_fuel(Seq::filter, 2);
    if i == apps.len() - 1 {
        assert(apps.update(i, e).drop_last() =~= apps.drop_last());
        assert(apps.update(i, e).last() == e);
    } else {
        assert(apps.update(i, e).drop_last() =~= apps.drop_last().update(i, e));
        assert(apps.update(i, e).last() == apps.last());
        lemma_count_on_update_same(apps.drop_last(), i, e, nid);
    }
}

/// Removing one app lowers exactly its own node's count by one.
proof fn lemma_count_on_remove(apps: Seq<App>, i: int, nid: Seq<u8>)
    requires
        0 <= i < apps.len(),
    ensures
        spec_count_on(apps.remove(i), nid) == spec_count_on(apps, nid)
            - (if string_bytes(apps[i].node_id) == nid { 1int } else { 0int }),
    decreases apps.len(),
{
    reveal_with_fuel(Seq::filter, 2);
    if i == apps.len() - 1 {
        assert(apps.remove(i) =~= apps.drop_last());
    } else {
        assert(apps.remove(i).drop_last() =~= apps.drop_last().remove(i));
        assert(apps.remove(i).last() == apps.last());
        lemma_count_on_remove(apps.drop_last(), i, nid);
    }
}

/// Capacity invariant: in a well-formed registry every node's counter is
/// non-negative and the number of apps assigned to a node never exceeds its
/// capacity.
pub proof fn lemma_capacity_invariant(r: Registry, k: int)
    requires
        r.wf(),
        0 <= k < r.nodes@.len(),
    ensures
        r.nodes@[k].app_count >= 0,
        spec_count_on(r.apps@, string_bytes(r.nodes@[k].id)) <= r.nodes@[k].max_apps,
{
    r.apps@.lemma_filter_len(
        (|a: App| string_bytes(a.node_id) == string_bytes(r.nodes@[k].id)),
    );
    assert(r.nodes@[k].app_count == spec_count_on(r.apps@, string_bytes(r.nodes@[k].id)));
    assert(r.nodes@[k].app_count >= 0) by {
        assert(r.apps@.filter(
            (|a: App| string_bytes(a.node_id) == string_bytes(r.nodes@[k].id)),
        ).len() >= 0);
    }
}

/// A deploy that created an app on a node resolves back to that node: when
/// the app row with the deployed id sits in the registry and its node row is
/// present, the app matches its own id as a subdomain and the node lookup
/// behind `resolve_subdomain` finds that node, so resolution cannot answer
/// `None`.
pub proof fn lemma_deploy_resolution(r: Registry, a: int, ni: int, sub: Seq<u8>)
    requires
        r.wf(),
        0 <= a < r.apps@.len(),
        0 <= ni < r.nodes@.len(),
        string_bytes(r.apps@[a].id) == sub,
        string_bytes(r.apps@[a].node_id) == string_bytes(r.nodes@[ni].id),
    ensures
        spec_app_matches_subdomain(r.apps@[a], sub),
        spec_find_node(r.nodes@, string_bytes(r.apps@[a].node_id)) is Some,
        ({
            let k = spec_find_node(r.nodes@, string_bytes(r.apps@[a].node_id)).unwrap();
            &&& 0 <= k < r.nodes@.len()
            &&& r.nodes@[k].ip == r.nodes@[ni].ip
            &&& r.nodes@[k].port == r.nodes@[ni].port
        }),
{
    lemma_find_node_present(r.nodes@, string_bytes(r.apps@[a].node_id), ni);
    let k = spec_find_node(r.nodes@, string_bytes(r.apps@[a].node_id)).unwrap();
    lemma_find_node_some(r.nodes@, string_bytes(r.apps@[a].node_id), k);
    if k != ni {
        assert(string_bytes(r.nodes@[k].id) == string_bytes(r.nodes@[ni].id));
        assert(false);
    }
}

/// What a deploy request decides before any side effect.
pub enum DeployDecision {
    /// A fresh app: a new id is minted; a node must be selected, provisioning
    /// one first when none has capacity.
    Create { needs_provision: bool },
    /// A redeploy of the caller's existing app: same id, updated timestamp.
    Redeploy { app_idx: usize },
}

/// Decide a deploy request: an empty bundle or one over the size limit is a
/// bad request with nothing written; a fresh deploy over the tier's app cap
/// is forbidden; a name owned by another user is forbidden; with no capable
/// node the deploy provisions when a provider is configured and fails
/// otherwise.
pub fn plan_deploy(
    bundle_len: usize,
    existing: Option<usize>,
    existing_owner_matches: bool,
    tier: &str,
    app_count: i64,
    has_capacity_node: bool,
    provider_configured: bool,
) -> (r: Result<DeployDecision, AppError>)
    requires
        app_count >= 0,
    ensures
        bundle_len == 0 ==> r matches Err(AppError::BadRequest(_)),
        bundle_len > MAX_BUNDLE_BYTES ==> r matches Err(AppError::BadRequest(_)),
        ({
            let is_redeploy = existing is Some && existing_owner_matches;
            let over_cap = !is_redeploy && app_count >= spec_tier_max_apps(tier.spec_bytes());
            let name_taken = existing is Some && !existing_owner_matches;
            &&& (1 <= bundle_len <= MAX_BUNDLE_BYTES && over_cap
                ==> r matches Err(AppError::Forbidden(_)))
            &&& (1 <= bundle_len <= MAX_BUNDLE_BYTES && !over_cap && name_taken
                ==> r matches Err(AppError::Forbidden(_)))
            &&& (1 <= bundle_len <= MAX_BUNDLE_BYTES && !over_cap && !name_taken
                && is_redeploy ==> r == Ok::<DeployDecision, AppError>(
                    DeployDecision::Redeploy { app_idx: existing.unwrap() },
                ))
            &&& (1 <= bundle_len <= MAX_BUNDLE_BYTES && !over_cap && !name_taken
                && !is_redeploy && has_capacity_node
                ==> r == Ok::<DeployDecision, AppError>(
                    DeployDecision::Create { needs_provision: false },
                ))
            &&& (1 <= bundle_len <= MAX_BUNDLE_BYTES && !over_cap && !name_taken
                && !is_redeploy && !has_capacity_node && provider_configured
                ==> r == Ok::<DeployDecision, AppError>(
                    DeployDecision::Create { needs_provision: true },
                ))
            &&& (1 <= bundle_len <= MAX_BUNDLE_BYTES && !over_cap && !name_taken
                && !is_redeploy && !has_capacity_node && !provider_configured
                ==> r matches Err(AppError::Internal(_)))
        }),
{
    if bundle_len == 0 {
        return Err(AppError::BadRequest(crate::data::string_from("bundle is required")));
    }
    if bundle_len > MAX_BUNDLE_BYTES {
        return Err(AppError::BadRequest(crate::data::string_from(
            "bundle exceeds 5MB limit",
        )));
    }
    let limits = tier_limits(tier);
    let is_redeploy = existing.is_some() && existing_owner_matches;
    if !is_redeploy && app_count >= limits.max_apps {
        proof {
            assert(limits.max_apps == spec_tier_max_apps(tier.spec_bytes()));
        }
        return Err(AppError::Forbidden(crate::data::string_from(
            "tier allows no more apps",
        )));
    }
    if existing.is_some() && !existing_owner_matches {
        return Err(AppError::Forbidden(crate::data::string_from("app name taken")));
    }
    if is_redeploy {
        return Ok(DeployDecision::Redeploy { app_idx: existing.unwrap() });
    }
    if has_capacity_node {
        Ok(DeployDecision::Create { needs_provision: false })
    } else if provider_configured {
        Ok(DeployDecision::Create { needs_provision: true })
    } else {
        Err(AppError::Internal(crate::data::string_from(
            "no available nodes and no provider configured",
        )))
    }
}

/// The app cap of a tier, by its name bytes.
pub open spec fn spec_tier_max_apps(tier: Seq<u8>) -> int {
    if tier == "pro".spec_bytes() {
        20
    } else if tier == "scale".spec_bytes() {
        1000
    } else {
        100
    }
}

/// The hex form of the SHA-256 digest of a byte string; a function of the
/// bytes alone.
pub uninterp spec fn sha256_hex_of(s: Seq<u8>) -> Seq<char>;

/// Relies on sha2's SHA-256: the stored digest of an API key, hex-encoded.
/// The digest of 32 bytes is 64 hex characters.
#[verifier::external_body]
pub fn hash_key(key: &str) -> (r: String)
    ensures
        r@ == sha256_hex_of(key.spec_bytes()),
        r@.len() == 64,
{
    let digest = <sha2::Sha256 as sha2::Digest>::digest(key.as_bytes());
    let mut out = String::with_capacity(64);
    for b in digest.iter() {
        out.push_str(&format!("{:02x}", b));
    }
    out
}

/// The unpadded URL-safe base64 encoding of a byte string; a function of the
/// bytes alone.
pub uninterp spec fn base64url_of(b: Seq<u8>) -> Seq<char>;

/// Relies on base64's `URL_SAFE_NO_PAD` engine; an unpadded encoding of n
/// bytes has `ceil(4n/3)` characters, 43 for 32 bytes.
#[verifier::external_body]
fn base64url_nopad(bytes: &[u8]) -> (r: String)
    ensures
        r@ == base64url_of(bytes@),
        bytes@.len() == 32 ==> r@.len() == 43,
{
    <base64::engine::general_purpose::GeneralPurpose as base64::Engine>::encode(
        &base64::engine::general_purpose::URL_SAFE_NO_PAD,
        bytes,
    )
}

/// Relies on rand's `thread_rng().fill`: 32 bytes of randomness; nothing is
/// assumed of their values.
#[verifier::external_body]
fn random_bytes_32() -> (r: Vec<u8>)
    ensures
        r@.len() == 32,
{
    let mut bytes = [0u8; 32];
    <rand::rngs::ThreadRng as rand::Rng>::fill(&mut rand::thread_rng(), &mut bytes);
    bytes.to_vec()
}

/// Relies on rand's `gen_range`: a uniformly chosen index below the bound;
/// only the bound is assumed.
#[verifier::external_body]
pub fn random_index(n: usize) -> (r: usize)
    requires
        n > 0,
    ensures
        r < n,
{
    <rand::rngs::ThreadRng as rand::Rng>::gen_range(&mut rand::thread_rng(), 0..n)
}

/// Relies on `String::from_utf8`: bytes below 128 are one character each.
#[verifier::external_body]
pub fn ascii_string(v: Vec<u8>) -> (r: String)
    requires
        forall|i: int| 0 <= i < v@.len() ==> v@[i] < 128,
    ensures
        r@.len() == v@.len(),
        forall|i: int| 0 <= i < v@.len() ==> r@[i] == v@[i] as char,
        crate::data::string_bytes(r) == v@,
    {
    String::from_utf8(v).unwrap_or_default()
}

/// A fresh API key: the typed prefix plus 32 random bytes, base64url-encoded
/// without padding. Revealed exactly once; only its digest is stored.
pub fn generate_api_key() -> (r: String)
    ensures
        r@.len() == "mk_"@.len() + 43,
        exists|b: Seq<u8>| b.len() == 32 && r@ == "mk_"@ + base64url_of(b),
{
    let bytes = random_bytes_32();
    let encoded = base64url_nopad(bytes.as_slice());
    let mut out = String::from_str("mk_");
    out.append(encoded.as_str());
    proof {
        assert(out@ == "mk_"@ + base64url_of(bytes@));
    }
    out
}

/// Whether a byte is a lower-case base-36 digit.
pub open spec fn spec_is_lower_alnum(b: u8) -> bool {
    (48 <= b <= 57) || (97 <= b <= 122)
}

/// A short random identifier over `0-9a-z`, for app, user and node ids.
pub fn generate_id(len: usize) -> (r: String)
    ensures
        r@.len() == len,
        forall|i: int| 0 <= i < r@.len() ==> spec_is_lower_alnum(#[trigger] r@[i] as u8),
{
    let mut alphabet: Vec<u8> = Vec::new();
    let mut d: u8 = 0;
    while d < 10
        invariant
            d <= 10,
            alphabet@.len() == d,
            forall|j: int| 0 <= j < alphabet@.len()
                ==> spec_is_lower_alnum(#[trigger] alphabet@[j]) && alphabet@[j] < 128,
        decreases 10 - d,
    {
        alphabet.push(48 + d);
        d = d + 1;
    }
    let mut l: u8 = 0;
    while l < 26
        invariant
            l <= 26,
            alphabet@.len() == 10 + l,
            forall|j: int| 0 <= j < alphabet@.len()
                ==> spec_is_lower_alnum(#[trigger] alphabet@[j]) && alphabet@[j] < 128,
        decreases 26 - l,
    {
        alphabet.push(97 + l);
        l = l + 1;
    }
    let mut out: Vec<u8> = Vec::new();
    let mut i: usize = 0;
    while i < len
        invariant
            out@.len() == i,
            i <= len,
            alphabet@.len() == 36,
            forall|j: int| 0 <= j < alphabet@.len()
                ==> spec_is_lower_alnum(#[trigger] alphabet@[j]) && alphabet@[j] < 128,
            forall|j: int| 0 <= j < out@.len()
                ==> spec_is_lower_alnum(#[trigger] out@[j]) && out@[j] < 128,
        decreases len - i,
    {
        let k = random_index(36);
        alphabet.push(alphabet[k]);
        let b = alphabet.pop().unwrap();
        out.push(b);
        i = i + 1;
    }
    let r = ascii_string(out);
    r
}

/// The authenticated caller of a control-plane request.
pub struct AuthUser(pub User);

/// Validate a bearer token: the header must carry `Bearer mk_…`, and the
/// digest of the token must belong to a stored API key; the owning user's
/// index is returned, and any other header is unauthorized.
pub fn authenticate(registry: &Registry, auth_header: Option<&String>) -> (r: Result<
    usize,
    AppError,
>)
    ensures
        match auth_header {
            Option::None => r matches Err(AppError::Unauthorized),
            Option::Some(h) => {
                let hb = string_bytes(*h);
                let shape_ok = vstd::utf8::is_ascii_chars(h@)
                    && crate::stream::spec_starts_with(hb, "Bearer mk_".spec_bytes())
                    && h@.len() >= "Bearer ".spec_bytes().len();
                if !shape_ok {
                    r matches Err(AppError::Unauthorized)
                } else {
                    let token_bytes = hb.skip("Bearer ".spec_bytes().len() as int);
                    let digest = vstd::utf8::encode_utf8(sha256_hex_of(token_bytes));
                    match spec_find_key(registry.api_keys@, digest) {
                        Some(k) => match r {
                            Ok(u) => u < registry.users@.len()
                                && string_bytes(registry.users@[u as int].id)
                                    == string_bytes(registry.api_keys@[k].1),
                            Err(_) => (r matches Err(AppError::Unauthorized))
                                && forall|j: int| 0 <= j < registry.users@.len()
                                    ==> string_bytes((#[trigger] registry.users@[j]).id)
                                        != string_bytes(registry.api_keys@[k].1),
                        },
                        None => r matches Err(AppError::Unauthorized),
                    }
                }
            },
        },
{
    let header = match auth_header {
        Some(h) => h,
        None => {
            return Err(AppError::Unauthorized);
        },
    };
    let hs: &str = header.as_str();
    if !hs.is_ascii() {
        return Err(AppError::Unauthorized);
    }
    let hb = hs.as_bytes();
    proof {
        vstd::string::is_ascii_spec_bytes(hs);
        assert(hb@ =~= string_bytes(*header));
    }
    if !crate::stream::starts_with(hb, "Bearer mk_".as_bytes()) {
        return Err(AppError::Unauthorized);
    }
    let blen = "Bearer ".as_bytes().len();
    let hlen = hs.unicode_len();
    if hlen < blen {
        return Err(AppError::Unauthorized);
    }
    let token = hs.substring_ascii(blen, hlen);
    proof {
        vstd::string::is_ascii_spec_bytes(token);
        assert(token.spec_bytes() =~= string_bytes(*header).skip(
            "Bearer ".spec_bytes().len() as int,
        ));
    }
    let key_hash = hash_key(token);
    match registry.get_user_by_key_hash(key_hash.as_str()) {
        Some(u) => Ok(u),
        None => Err(AppError::Unauthorized),
    }
}

/// The characters shown for message bytes: bytes below 128 pass through,
/// any other byte is shown as a question mark.
pub open spec fn spec_lossy_chars(v: Seq<u8>) -> Seq<char> {
    Seq::new(v.len(), |i: int| if v[i] < 128 {
        v[i] as char
    } else {
        63u8 as char
    })
}

/// A display string from message bytes: bytes below 128 pass through, any
/// other byte is shown as `?`.
pub fn ascii_label(v: Vec<u8>) -> (r: String)
    ensures
        r@ == spec_lossy_chars(v@),
        r@.len() == v@.len(),
{
    let mut clean: Vec<u8> = Vec::new();
    let mut i: usize = 0;
    while i < v.len()
        invariant
            i <= v@.len(),
            clean@.len() == i,
            forall|j: int| 0 <= j < clean@.len() ==> #[trigger] clean@[j] < 128,
            forall|j: int| 0 <= j < clean@.len() ==> #[trigger] clean@[j] == (if v@[j] < 128 {
                v@[j]
            } else {
                63u8
            }),
        decreases v@.len() - i,
    {
        let b = v[i];
        if b < 128 {
            clean.push(b);
        } else {
            clean.push(63);
        }
        i = i + 1;
    }
    let r = ascii_string(clean);
    proof {
        assert(r@ =~= spec_lossy_chars(v@));
    }
    r
}

/// A registration request: the caller's email.
pub struct RegisterRequest {
    pub email: String,
}

/// A request for a fresh API key.
pub struct CreateKeyRequest {
    pub name: Option<String>,
}

/// A deploy request: the bundle, optional vanity name, static assets and
/// declarative configuration.
pub struct DeployRequest {
    pub name: Option<String>,
    pub bundle: String,
    pub assets: Option<Vec<(String, String)>>,
    pub config: Option<String>,
}

/// Manual node registration.
pub struct RegisterNodeRequest {
    pub ip: String,
    pub port: Option<i64>,
    pub region: Option<String>,
    pub civo_instance_id: Option<String>,
}

/// A request to provision a fresh node.
pub struct ProvisionNodeRequest {
    pub region: Option<String>,
}

/// The on-demand TLS question: should a certificate be issued for a domain.
pub struct TlsCheckQuery {
    pub domain: Option<String>,
}

/// A provider compute instance as the provisioning loop sees it.
pub struct CivoInstance {
    pub id: String,
    pub hostname: String,
    pub public_ip: String,
    pub status: String,
    pub region: String,
}

/// What the provisioning poll does next.
pub enum PollDecision {
    /// The instance reports active with a routable address: register it.
    Ready,
    /// Keep polling.
    Wait,
    /// The deadline passed: the provisioning fails upstream.
    GiveUp,
}

/// Decide one provisioning poll step: ready once the instance is active with
/// a public address; give up past the deadline; otherwise keep waiting.
pub fn provision_poll(inst: &CivoInstance, elapsed_secs: u64, timeout_secs: u64) -> (r:
    PollDecision)
    ensures
        elapsed_secs > timeout_secs ==> r is GiveUp,
        elapsed_secs <= timeout_secs
            && crate::data::string_bytes(inst.status) == "ACTIVE".spec_bytes()
            && crate::data::string_bytes(inst.public_ip).len() > 0 ==> r is Ready,
        elapsed_secs <= timeout_secs
            && (crate::data::string_bytes(inst.status) != "ACTIVE".spec_bytes()
                || crate::data::string_bytes(inst.public_ip).len() == 0) ==> r is Wait,
{
    if elapsed_secs > timeout_secs {
        return PollDecision::GiveUp;
    }
    let active = crate::parse::bytes_eq(inst.status.as_str().as_bytes(), "ACTIVE".as_bytes());
    if active && inst.public_ip.as_str().as_bytes().len() > 0 {
        PollDecision::Ready
    } else {
        PollDecision::Wait
    }
}

/// ASCII lower-casing of a byte string.
pub open spec fn spec_lower_ascii(s: Seq<u8>) -> Seq<u8> {
    Seq::new(s.len(), |i: int| if 65 <= s[i] <= 90 {
        (s[i] + 32) as u8
    } else {
        s[i]
    })
}

/// Lower-case the ASCII letters of a byte string.
pub fn lower_ascii(s: &[u8]) -> (r: Vec<u8>)
    ensures
        r@ == spec_lower_ascii(s@),
{
    let mut out: Vec<u8> = Vec::new();
    let mut i: usize = 0;
    while i < s.len()
        invariant
            i <= s@.len(),
            out@.len() == i,
            forall|j: int| 0 <= j < i ==> #[trigger] out@[j] == spec_lower_ascii(s@)[j],
        decreases s@.len() - i,
    {
        let b = s[i];
        if 65 <= b && b <= 90 {
            out.push(b + 32);
        } else {
            out.push(b);
        }
        i = i + 1;
    }
    proof {
        assert(out@ =~= spec_lower_ascii(s@));
    }
    out
}

/// Index of the first image whose name contains the given needle.
pub open spec fn spec_find_image(images: Seq<(String, String)>, needle: Seq<u8>) -> Option<
    int,
>
    decreases images.len(),
{
    if images.len() <= 0 {
        None
    } else if crate::render_swift::spec_contains(string_bytes(images[0].1), needle) {
        Some(0int)
    } else {
        match spec_find_image(images.drop_first(), needle) {
            Some(i) => Some(i + 1),
            None => None,
        }
    }
}

/// Index of the first image whose lower-cased name contains the needle.
pub open spec fn spec_find_image_ci(images: Seq<(String, String)>, needle: Seq<u8>) -> Option<
    int,
>
    decreases images.len(),
{
    if images.len() <= 0 {
        None
    } else if crate::render_swift::spec_contains(
        spec_lower_ascii(string_bytes(images[0].1)),
        needle,
    ) {
        Some(0int)
    } else {
        match spec_find_image_ci(images.drop_first(), needle) {
            Some(i) => Some(i + 1),
            None => None,
        }
    }
}

proof fn lemma_find_image_prefix(images: Seq<(String, String)>, needle: Seq<u8>, i: int)
    requires
        0 <= i <= images.len(),
        forall|j: int| 0 <= j < i ==> !crate::render_swift::spec_contains(
            string_bytes((#[trigger] images[j]).1),
            needle,
        ),
    ensures
        spec_find_image(images, needle) == match spec_find_image(images.skip(i), needle) {
            Some(k) => Some(k + i),
            None => None::<int>,
        },
    decreases i,
{
    if i > 0 {
        lemma_find_image_prefix(images.drop_first(), needle, i - 1);
        assert(images.drop_first().skip(i - 1) =~= images.skip(i));
    } else {
        assert(images.skip(0) =~= images);
    }
}

proof fn lemma_find_image_ci_prefix(images: Seq<(String, String)>, needle: Seq<u8>, i: int)
    requires
        0 <= i <= images.len(),
        forall|j: int| 0 <= j < i ==> !crate::render_swift::spec_contains(
            spec_lower_ascii(string_bytes((#[trigger] images[j]).1)),
            needle,
        ),
    ensures
        spec_find_image_ci(images, needle) == match spec_find_image_ci(
            images.skip(i),
            needle,
        ) {
            Some(k) => Some(k + i),
            None => None::<int>,
        },
    decreases i,
{
    if i > 0 {
        lemma_find_image_ci_prefix(images.drop_first(), needle, i - 1);
        assert(images.drop_first().skip(i - 1) =~= images.skip(i));
    } else {
        assert(images.skip(0) =~= images);
    }
}

/// The disk image the provisioner boots: the first image whose name names
/// the preferred release, else the first whose lower-cased name names the
/// distribution at all.
pub fn pick_ubuntu_image(images: &Vec<(String, String)>) -> (r: Option<usize>)
    ensures
        match spec_find_image(images@, "ubuntu-jammy".spec_bytes()) {
            Some(i) => r matches Some(ri) && ri as int == i,
            None => match spec_find_image_ci(images@, "ubuntu".spec_bytes()) {
                Some(j) => r matches Some(rj) && rj as int == j,
                None => r is None,
            },
        },
{
    let mut i: usize = 0;
    let n = images.len();
    while i < n
        invariant
            n == images@.len(),
            i <= n,
            forall|k: int| 0 <= k < i ==> !crate::render_swift::spec_contains(
                string_bytes((#[trigger] images@[k]).1),
                "ubuntu-jammy".spec_bytes(),
            ),
        decreases n - i,
    {
        if crate::parse::find_subslice(
            images[i].1.as_str().as_bytes(),
            "ubuntu-jammy".as_bytes(),
        ).is_some() {
            proof {
                lemma_find_image_prefix(images@, "ubuntu-jammy".spec_bytes(), i as int);
                assert(images@.skip(i as int)[0] == images@[i as int]);
            }
            return Some(i);
        }
        i = i + 1;
    }
    proof {
        lemma_find_image_prefix(images@, "ubuntu-jammy".spec_bytes(), i as int);
    }
    let mut j: usize = 0;
    while j < n
        invariant
            n == images@.len(),
            j <= n,
            spec_find_image(images@, "ubuntu-jammy".spec_bytes()) is None,
            forall|k: int| 0 <= k < j ==> !crate::render_swift::spec_contains(
                spec_lower_ascii(string_bytes((#[trigger] images@[k]).1)),
                "ubuntu".spec_bytes(),
            ),
        decreases n - j,
    {
        let lowered = lower_ascii(images[j].1.as_str().as_bytes());
        if crate::parse::find_subslice(lowered.as_slice(), "ubuntu".as_bytes()).is_some() {
            proof {
                lemma_find_image_ci_prefix(images@, "ubuntu".spec_bytes(), j as int);
                assert(images@.skip(j as int)[0] == images@[j as int]);
            }
            return Some(j);
        }
        j = j + 1;
    }
    proof {
        lemma_find_image_ci_prefix(images@, "ubuntu".spec_bytes(), j as int);
    }
    None
}

/// Normalize a registration email: trim whitespace, lower-case the ASCII
/// letters.
pub fn normalize_email(email: &str) -> (r: Vec<u8>)
    ensures
        r@ == spec_lower_ascii(crate::stream::spec_trim_ws(email.spec_bytes())),
{
    let t = crate::stream::trim_ws(email.as_bytes());
    lower_ascii(t.as_slice())
}

/// Whether a normalized email is accepted: non-empty with an at sign.
pub fn validate_email(email: &[u8]) -> (r: bool)
    ensures
        r == (email@.len() > 0 && crate::parse::spec_find_byte(email@, 64) is Some),
{
    email.len() > 0 && crate::parse::find_byte(email, 64).is_some()
}

/// The subdomain a certificate is asked for: the domain with the apex suffix
/// removed; an empty remainder or a foreign domain is refused.
pub fn tls_subdomain(domain: &[u8], apex: &[u8]) -> (r: Option<Vec<u8>>)
    ensures
        ({
            let suffix = seq![46u8] + apex@;
            if !crate::platform::spec_ends_with(domain@, suffix) {
                r is None
            } else if domain@.len() <= suffix.len() {
                r is None
            } else {
                r matches Some(s) && s@ == domain@.take(domain@.len() - suffix.len())
                    && s@.len() > 0 && domain@ == s@ + seq![46u8] + apex@
            }
        }),
{
    let mut suffix: Vec<u8> = Vec::new();
    suffix.push(46);
    crate::wire::push_bytes(&mut suffix, apex);
    proof {
        assert(suffix@ =~= seq![46u8] + apex@);
    }
    if !crate::platform::ends_with(domain, suffix.as_slice()) {
        return None;
    }
    if domain.len() <= suffix.len() {
        return None;
    }
    let head: &[u8] = &domain[0..domain.len() - suffix.len()];
    proof {
        assert(head@ =~= domain@.take(domain@.len() - suffix@.len()));
        assert(domain@.subrange(domain@.len() - suffix@.len(), domain@.len() as int)
            == suffix@);
        assert(domain@ =~= head@ + suffix@);
        assert(head@ + suffix@ =~= head@ + seq![46u8] + apex@);
    }
    Some(crate::transport::slice_take(head, head.len()))
}

/// The canonical public URL of a deployed app.
pub fn deploy_url(app_id: &[u8], domain: &[u8]) -> (r: Vec<u8>)
    ensures
        r@ == "https://".spec_bytes() + app_id@ + seq![46u8] + domain@,
{
    let mut out: Vec<u8> = Vec::new();
    crate::wire::push_bytes(&mut out, "https://".as_bytes());
    crate::wire::push_bytes(&mut out, app_id);
    out.push(46);
    crate::wire::push_bytes(&mut out, domain);
    proof {
        assert(out@ =~= "https://".spec_bytes() + app_id@ + seq![46u8] + domain@);
    }
    out
}

/// The node endpoint a bundle is forwarded to.
pub fn node_deploy_url(ip: &[u8], port: u64, app_id: &[u8]) -> (r: Vec<u8>)
    ensures
        r@ == "http://".spec_bytes() + ip@ + seq![58u8]
            + crate::wire::spec_u64_str(port as nat) + "/api/apps/".spec_bytes() + app_id@
            + "/deploy".spec_bytes(),
{
    let mut out: Vec<u8> = Vec::new();
    crate::wire::push_bytes(&mut out, "http://".as_bytes());
    crate::wire::push_bytes(&mut out, ip);
    out.push(58);
    crate::wire::push_u64(&mut out, port);
    crate::wire::push_bytes(&mut out, "/api/apps/".as_bytes());
    crate::wire::push_bytes(&mut out, app_id);
    crate::wire::push_bytes(&mut out, "/deploy".as_bytes());
    proof {
        assert(out@ =~= "http://".spec_bytes() + ip@ + seq![58u8]
            + crate::wire::spec_u64_str(port as nat) + "/api/apps/".spec_bytes() + app_id@
            + "/deploy".spec_bytes());
    }
    out
}

} // verus!
