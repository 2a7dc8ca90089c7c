//! Declarative data layer: per-app data source and action configuration,
//! page-scoped source resolution, the per-app value store (raw JSON text per
//! source key), the merged view handed to the isolate before a render, URL
//! interpolation, duration parsing, and the application of fetch outcomes
//! including SSR timeouts.

use vstd::prelude::*;
use vstd::string::StringSliceAdditionalSpecFns;
use crate::stream::spec_starts_with;
use crate::wire::{push_bytes, push_str_lit};
use crate::dom::spec_str_lit;

verus! {

/// The UTF-8 bytes of an owned string.
pub open spec fn string_bytes(s: String) -> Seq<u8> {
    vstd::utf8::encode_utf8(s@)
}

/// Auth session cookie/ttl configuration.
pub struct SessionConfig {
    pub cookie: Option<String>,
    pub ttl: Option<String>,
}

/// Auth provider configuration.
pub struct AuthConfig {
    pub provider: String,
    pub issuer: Option<String>,
    pub client_id: Option<String>,
    pub client_secret: Option<String>,
    pub scopes: Vec<String>,
    pub redirect_uri: Option<String>,
    pub session: Option<SessionConfig>,
    pub login_url: Option<String>,
    pub verify_url: Option<String>,
    pub token_field: Option<String>,
    pub token_expires_in: Option<u64>,
}

/// One declarative data source.
pub struct DataSourceConfig {
    pub key: String,
    pub url: String,
    pub source_type: String,
    pub refresh: Option<String>,
    pub page: String,
    pub auth: bool,
    pub timeout: Option<String>,
    pub retries: u32,
    pub buffer: usize,
    pub target: Option<String>,
}

/// One declarative server-side action mapping.
pub struct ActionMappingConfig {
    pub name: String,
    pub method: String,
    pub url: String,
    pub target: Option<String>,
    pub debounce: Option<u64>,
}

/// A whole app's data layer configuration.
pub struct DataLayerConfig {
    pub auth: Option<AuthConfig>,
    pub data: Vec<DataSourceConfig>,
    pub actions: Vec<ActionMappingConfig>,
}

/// Whether a source with scope `page` is active for request path `path`:
/// wildcard, exact match, or segment-aligned prefix.
pub open spec fn spec_page_matches(page: Seq<u8>, path: Seq<u8>) -> bool {
    ||| page == "*".spec_bytes()
    ||| path == page
    ||| (spec_starts_with(path, page) && ((page.len() > 0 && page.last() == 47)
        || (path.len() > page.len() && path[page.len() as int] == 47)))
}

/// Whether a source scope matches a request path.
pub fn page_matches(page: &str, path: &str) -> (r: bool)
    ensures
        r == spec_page_matches(page.spec_bytes(), path.spec_bytes()),
{
    let pg = page.as_bytes();
    let pt = path.as_bytes();
    if crate::parse::bytes_eq(pg, "*".as_bytes()) {
        return true;
    }
    if crate::parse::bytes_eq(pt, pg) {
        return true;
    }
    if crate::stream::starts_with(pt, pg) {
        if pg.len() > 0 && pg[pg.len() - 1] == 47 {
            proof {
                assert(page.spec_bytes().last() == pg@[pg@.len() - 1]);
            }
            return true;
        }
        if pt.len() > pg.len() && pt[pg.len()] == 47 {
            return true;
        }
    }
    false
}

/// The raw JSON value stored for a key, if any.
pub open spec fn spec_value_of(values: Seq<(String, Vec<u8>)>, key: Seq<u8>) -> Option<Seq<u8>>
    decreases values.len(),
{
    if values.len() <= 0 {
        None
    } else if string_bytes(values[0].0) == key {
        Some(values[0].1@)
    } else {
        spec_value_of(values.drop_first(), key)
    }
}

proof fn lemma_value_of_prefix(values: Seq<(String, Vec<u8>)>, key: Seq<u8>, i: int)
    requires
        0 <= i <= values.len(),
        forall|j: int| 0 <= j < i ==> string_bytes((#[trigger] values[j]).0) != key,
    ensures
        spec_value_of(values, key) == spec_value_of(values.skip(i), key),
    decreases i,
{
    if i > 0 {
        lemma_value_of_prefix(values.drop_first(), key, i - 1);
        assert(values.drop_first().skip(i - 1) =~= values.skip(i));
    } else {
        assert(values.skip(0) =~= values);
    }
}

/// Per-app data context: current raw JSON value per source key, plus the
/// app's data layer configuration.
pub struct DataContext {
    pub values: Vec<(String, Vec<u8>)>,
    pub config: DataLayerConfig,
}

impl DataContext {
    pub fn new(config: DataLayerConfig) -> (c: DataContext)
        ensures
            c.values@ =~= Seq::<(String, Vec<u8>)>::empty(),
            c.config == config,
    {
        DataContext { values: Vec::new(), config }
    }

    fn find_value_index(&self, key: &str) -> (r: Option<usize>)
        ensures
            match r {
                Some(i) => i < self.values@.len()
                    && string_bytes(self.values@[i as int].0) == key.spec_bytes()
                    && spec_value_of(self.values@, key.spec_bytes())
                        == Some(self.values@[i as int].1@)
                    && forall|j: int| 0 <= j < i
                        ==> string_bytes((#[trigger] self.values@[j]).0) != key.spec_bytes(),
                None => spec_value_of(self.values@, key.spec_bytes()) is None,
            },
    {
        let mut i: usize = 0;
        let n = self.values.len();
        while i < n
            invariant
                n == self.values@.len(),
                i <= n,
                forall|j: int| 0 <= j < i
                    ==> string_bytes((#[trigger] self.values@[j]).0) != key.spec_bytes(),
            decreases n - i,
        {
            if crate::parse::bytes_eq(self.values[i].0.as_str().as_bytes(), key.as_bytes()) {
                proof {
                    lemma_value_of_prefix(self.values@, key.spec_bytes(), i as int);
                    assert(self.values@.skip(i as int)[0] == self.values@[i as int]);
                }
                return Some(i);
            }
            i = i + 1;
        }
        proof {
            lemma_value_of_prefix(self.values@, key.spec_bytes(), i as int);
        }
        None
    }

    /// Store a fetched raw JSON value for a source key, replacing any
    /// previous value.
    pub fn set_value(&mut self, key: String, value: Vec<u8>)
        ensures
            final(self).config == old(self).config,
            spec_value_of(final(self).values@, string_bytes(key)) == Some(value@),
            forall|k2: Seq<u8>| k2 != string_bytes(key)
                ==> #[trigger] spec_value_of(final(self).values@, k2)
                    == spec_value_of(old(self).values@, k2),
    {
        let idx = self.find_value_index(key.as_str());
        match idx {
            Some(i) => {
                let mut entry = self.values.remove(i);
                entry.1 = value;
                self.values.insert(i, entry);
                proof {
                    assert(self.values@ =~= old(self).values@.update(
                        i as int,
                        self.values@[i as int],
                    ));
                    lemma_value_update(old(self).values@, i as int, self.values@[i as int]);
                }
            },
            None => {
                self.values.push((key, value));
                proof {
                    lemma_value_push(old(self).values@, self.values@.last());
                    assert(self.values@.drop_last() =~= old(self).values@);
                }
            },
        }
    }

    /// Remove the stored value for a key, if any.
    pub fn remove_value(&mut self, key: &str)
        ensures
            final(self).config == old(self).config,
            spec_value_of(final(self).values@, key.spec_bytes()) is None,
            forall|k2: Seq<u8>| k2 != key.spec_bytes()
                ==> #[trigger] spec_value_of(final(self).values@, k2)
                    == spec_value_of(old(self).values@, k2),
    {
        loop
            invariant
                self.config == old(self).config,
                forall|k2: Seq<u8>| k2 != key.spec_bytes()
                    ==> #[trigger] spec_value_of(self.values@, k2)
                        == spec_value_of(old(self).values@, k2),
            ensures
                spec_value_of(self.values@, key.spec_bytes()) is None,
                self.config == old(self).config,
                forall|k2: Seq<u8>| k2 != key.spec_bytes()
                    ==> #[trigger] spec_value_of(self.values@, k2)
                        == spec_value_of(old(self).values@, k2),
            decreases self.values@.len(),
        {
            let ghost pre = self.values@;
            match self.find_value_index(key) {
                Some(i) => {
                    self.values.remove(i);
                    proof {
                        lemma_value_remove(pre, key.spec_bytes(), i as int);
                    }
                },
                None => {
                    break;
                },
            }
        }
    }

    /// Indices of the data sources whose page scope matches `path`, in
    /// configuration order.
    pub fn sources_for_page(&self, path: &str) -> (r: Vec<usize>)
        ensures
            forall|k: int| 0 <= k < r@.len() ==> #[trigger] r@[k] < self.config.data@.len()
                && spec_page_matches(
                    string_bytes(self.config.data@[r@[k] as int].page),
                    path.spec_bytes(),
                ),
            forall|k1: int, k2: int| 0 <= k1 < k2 < r@.len()
                ==> #[trigger] r@[k1] < #[trigger] r@[k2],
            forall|i: int| 0 <= i < self.config.data@.len() && spec_page_matches(
                string_bytes((#[trigger] self.config.data@[i]).page),
                path.spec_bytes(),
            ) ==> r@.contains(i as usize),
    {
        let mut r: Vec<usize> = Vec::new();
        let mut i: usize = 0;
        let n = self.config.data.len();
        while i < n
            invariant
                n == self.config.data@.len(),
                i <= n,
                forall|k: int| 0 <= k < r@.len() ==> #[trigger] r@[k] < i
                    && spec_page_matches(
                        string_bytes(self.config.data@[r@[k] as int].page),
                        path.spec_bytes(),
                    ),
                forall|k1: int, k2: int| 0 <= k1 < k2 < r@.len()
                    ==> #[trigger] r@[k1] < #[trigger] r@[k2],
                forall|j: int| 0 <= j < i && spec_page_matches(
                    string_bytes((#[trigger] self.config.data@[j]).page),
                    path.spec_bytes(),
                ) ==> r@.contains(j as usize),
            decreases n - i,
        {
            if page_matches(self.config.data[i].page.as_str(), path) {
                let ghost pre_r = r@;
                r.push(i);
                proof {
                    assert(r@.drop_last() =~= pre_r);
                    assert(r@.last() == i as usize);
                    assert forall|j: int| 0 <= j < i + 1 && spec_page_matches(
                        string_bytes((#[trigger] self.config.data@[j]).page),
                        path.spec_bytes(),
                    ) implies r@.contains(j as usize) by {
                        if j < i {
                            assert(pre_r.contains(j as usize));
                            let k = choose|k: int| 0 <= k < pre_r.len()
                                && pre_r[k] == j as usize;
                            assert(r@[k] == j as usize);
                        } else {
                            assert(r@[r@.len() - 1] == j as usize);
                        }
                    }
                }
            }
            i = i + 1;
        }
        r
    }

    /// First action mapping with the given name, if any.
    pub fn find_action(&self, action_name: &str) -> (r: Option<usize>)
        ensures
            match r {
                Some(i) => i < self.config.actions@.len()
                    && string_bytes(self.config.actions@[i as int].name)
                        == action_name.spec_bytes()
                    && forall|j: int| 0 <= j < i
                        ==> string_bytes((#[trigger] self.config.actions@[j]).name)
                            != action_name.spec_bytes(),
                None => forall|j: int| 0 <= j < self.config.actions@.len()
                    ==> string_bytes((#[trigger] self.config.actions@[j]).name)
                        != action_name.spec_bytes(),
            },
    {
        let mut i: usize = 0;
        let n = self.config.actions.len();
        while i < n
            invariant
                n == self.config.actions@.len(),
                i <= n,
                forall|j: int| 0 <= j < i
                    ==> string_bytes((#[trigger] self.config.actions@[j]).name)
                        != action_name.spec_bytes(),
            decreases n - i,
        {
            if crate::parse::bytes_eq(
                self.config.actions[i].name.as_str().as_bytes(),
                action_name.as_bytes(),
            ) {
                return Some(i);
            }
            i = i + 1;
        }
        None
    }

    /// The merged JSON object of the current values of all sources matching
    /// `path`, in configuration order; sources without a value are left out.
    pub fn data_json_for_page(&self, path: &str) -> (r: Vec<u8>)
        ensures
            r@ == seq![123u8] + spec_data_entries(
                self.config.data@,
                self.values@,
                path.spec_bytes(),
            ) + seq![125u8],
    {
        let mut out: Vec<u8> = Vec::new();
        out.push(123);
        let mut first: bool = true;
        let mut i: usize = 0;
        let n = self.config.data.len();
        proof {
            assert(out@ =~= seq![123u8] + spec_data_entries(
                self.config.data@.take(0),
                self.values@,
                path.spec_bytes(),
            ));
        }
        #[verifier::loop_isolation(false)]
        while i < n
            invariant
                n == self.config.data@.len(),
                i <= n,
                first == (spec_data_entries(
                    self.config.data@.take(i as int),
                    self.values@,
                    path.spec_bytes(),
                ).len() == 0),
                out@ == seq![123u8] + spec_data_entries(
                    self.config.data@.take(i as int),
                    self.values@,
                    path.spec_bytes(),
                ),
            decreases n - i,
        {
            let ghost prefix = spec_data_entries(
                self.config.data@.take(i as int),
                self.values@,
                path.spec_bytes(),
            );
            proof {
                assert(self.config.data@.take(i + 1).drop_last()
                    =~= self.config.data@.take(i as int));
                assert(self.config.data@.take(i + 1).last() == self.config.data@[i as int]);
            }
            let src = &self.config.data[i];
            if page_matches(src.page.as_str(), path) {
                match self.find_value_index(src.key.as_str()) {
                    Some(vi) => {
                        if !first {
                            out.push(44);
                        }
                        push_str_lit(&mut out, src.key.as_str().as_bytes());
                        out.push(58);
                        push_bytes(&mut out, self.values[vi].1.as_slice());
                        first = false;
                        proof {
                            assert(out@ =~= seq![123u8] + spec_data_entries(
                                self.config.data@.take(i + 1),
                                self.values@,
                                path.spec_bytes(),
                            ));
                        }
                    },
                    None => {},
                }
            }
            i = i + 1;
        }
        out.push(125);
        proof {
            assert(self.config.data@.take(n as int) =~= self.config.data@);
            assert(out@ =~= seq![123u8] + spec_data_entries(
                self.config.data@,
                self.values@,
                path.spec_bytes(),
            ) + seq![125u8]);
        }
        out
    }
}

/// The comma-separated `"key":value` entries of the merged page view.
pub open spec fn spec_data_entries(
    data: Seq<DataSourceConfig>,
    values: Seq<(String, Vec<u8>)>,
    path: Seq<u8>,
) -> Seq<u8>
    decreases data.len(),
{
    if data.len() <= 0 {
        Seq::<u8>::empty()
    } else {
        let rest = spec_data_entries(data.drop_last(), values, path);
        let src = data.last();
        if spec_page_matches(string_bytes(src.page), path) {
            match spec_value_of(values, string_bytes(src.key)) {
                Some(v) => rest + (if rest.len() > 0 {
                    seq![44u8]
                } else {
                    Seq::<u8>::empty()
                }) + spec_str_lit(string_bytes(src.key)) + seq![58u8] + v,
                None => rest,
            }
        } else {
            rest
        }
    }
}

proof fn lemma_value_update(values: Seq<(String, Vec<u8>)>, i: int, e: (String, Vec<u8>))
    requires
        0 <= i < values.len(),
        string_bytes(e.0) == string_bytes(values[i].0),
        forall|j: int| 0 <= j < i ==> string_bytes((#[trigger] values[j]).0) != string_bytes(e.0),
    ensures
        spec_value_of(values.update(i, e), string_bytes(e.0)) == Some(e.1@),
        forall|k2: Seq<u8>| k2 != string_bytes(e.0)
            ==> #[trigger] spec_value_of(values.update(i, e), k2) == spec_value_of(values, k2),
    decreases values.len(),
{
    if i == 0 {
        assert forall|k2: Seq<u8>| k2 != string_bytes(e.0)
            implies #[trigger] spec_value_of(values.update(0, e), k2)
                == spec_value_of(values, k2) by {
            assert(values.update(0, e).drop_first() =~= values.drop_first());
        }
        assert(spec_value_of(values.update(0, e), string_bytes(e.0)) == Some(e.1@));
    } else {
        assert(values.update(i, e).drop_first() =~= values.drop_first().update(i - 1, e));
        lemma_value_update(values.drop_first(), i - 1, e);
        assert forall|k2: Seq<u8>| k2 != string_bytes(e.0)
            implies #[trigger] spec_value_of(values.update(i, e), k2)
                == spec_value_of(values, k2) by {
            assert(values.update(i, e)[0] == values[0]);
            assert(spec_value_of(values.drop_first().update(i - 1, e), k2)
                == spec_value_of(values.drop_first(), k2));
            assert(spec_value_of(values.update(i, e).drop_first(), k2)
                == spec_value_of(values.drop_first().update(i - 1, e), k2));
        }
    }
}

proof fn lemma_value_push(values: Seq<(String, Vec<u8>)>, e: (String, Vec<u8>))
    requires
        spec_value_of(values, string_bytes(e.0)) is None,
    ensures
        spec_value_of(values.push(e), string_bytes(e.0)) == Some(e.1@),
        forall|k2: Seq<u8>| k2 != string_bytes(e.0)
            ==> #[trigger] spec_value_of(values.push(e), k2) == spec_value_of(values, k2),
    decreases values.len(),
{
    reveal_with_fuel(spec_value_of, 3);
    if values.len() == 0 {
        assert(values.push(e)[0] == e);
        assert forall|k2: Seq<u8>| k2 != string_bytes(e.0)
            implies #[trigger] spec_value_of(values.push(e), k2)
                == spec_value_of(values, k2) by {
            assert(values.push(e).drop_first() =~= Seq::<(String, Vec<u8>)>::empty());
            assert(spec_value_of(values.push(e).drop_first(), k2) is None);
        }
    } else {
        assert(values.push(e).drop_first() =~= values.drop_first().push(e));
        lemma_value_push(values.drop_first(), e);
        assert forall|k2: Seq<u8>| k2 != string_bytes(e.0)
            implies #[trigger] spec_value_of(values.push(e), k2)
                == spec_value_of(values, k2) by {
            assert(values.push(e)[0] == values[0]);
            assert(spec_value_of(values.drop_first().push(e), k2)
                == spec_value_of(values.drop_first(), k2));
            assert(spec_value_of(values.push(e).drop_first(), k2)
                == spec_value_of(values.drop_first().push(e), k2));
        }
    }
}

proof fn lemma_value_remove(values: Seq<(String, Vec<u8>)>, key: Seq<u8>, i: int)
    requires
        0 <= i < values.len(),
        string_bytes(values[i].0) == key,
        forall|j: int| 0 <= j < i ==> string_bytes((#[trigger] values[j]).0) != key,
    ensures
        forall|k2: Seq<u8>| k2 != key
            ==> #[trigger] spec_value_of(values.remove(i), k2) == spec_value_of(values, k2),
        values.remove(i).len() < values.len(),
    decreases values.len(),
{
    reveal_with_fuel(spec_value_of, 3);
    if i == 0 {
        assert(values.remove(0) =~= values.drop_first());
        assert forall|k2: Seq<u8>| k2 != key
            implies #[trigger] spec_value_of(values.remove(i), k2)
                == spec_value_of(values, k2) by {
            assert(spec_value_of(values.remove(0), k2)
                == spec_value_of(values.drop_first(), k2));
        }
    } else {
        assert(values.remove(i).drop_first() =~= values.drop_first().remove(i - 1));
        lemma_value_remove(values.drop_first(), key, i - 1);
        assert forall|k2: Seq<u8>| k2 != key
            implies #[trigger] spec_value_of(values.remove(i), k2)
                == spec_value_of(values, k2) by {
            assert(values.remove(i)[0] == values[0]);
            assert(spec_value_of(values.drop_first().remove(i - 1), k2)
                == spec_value_of(values.drop_first(), k2));
            assert(spec_value_of(values.remove(i).drop_first(), k2)
                == spec_value_of(values.drop_first().remove(i - 1), k2));
        }
    }
}

/// Milliseconds for a duration string: `ms`, `s` or `m` suffixes; anything
/// else is zero. Values too large for 64 bits saturate.
pub open spec fn spec_duration_ms(s: Seq<u8>) -> nat {
    if s.len() >= 2 && s.subrange(s.len() - 2, s.len() as int) == "ms".spec_bytes() {
        spec_num_or_zero(s.take(s.len() - 2), 1)
    } else if s.len() >= 1 && s.last() == 115 {
        spec_num_or_zero(s.take(s.len() - 1), 1000)
    } else if s.len() >= 1 && s.last() == 109 {
        spec_num_or_zero(s.take(s.len() - 1), 60000)
    } else {
        0
    }
}

/// The numeric value of a digit string times a unit, saturating at
/// `u64::MAX`; zero when not a number.
pub open spec fn spec_num_or_zero(s: Seq<u8>, unit: nat) -> nat {
    match crate::stream::spec_digits_value(s) {
        Some(v) => if v > u64::MAX {
            0
        } else if v * unit > u64::MAX {
            u64::MAX as nat
        } else {
            v * unit
        },
        None => 0,
    }
}

/// Parse a duration such as `100ms`, `5s` or `1m` into milliseconds; zero
/// for anything else.
pub fn parse_duration(s: &str) -> (r: u64)
    ensures
        r as nat == spec_duration_ms(s.spec_bytes()),
{
    let b = s.as_bytes();
    if b.len() >= 2 {
        let tail: &[u8] = &b[b.len() - 2..b.len()];
        proof {
            assert(tail@ =~= b@.subrange(b@.len() - 2, b@.len() as int));
        }
        if crate::parse::bytes_eq(tail, "ms".as_bytes()) {
            let digits: &[u8] = &b[0..b.len() - 2];
            proof {
                assert(digits@ =~= b@.take(b@.len() - 2));
            }
            return num_or_zero(digits, 1);
        }
    }
    if b.len() >= 1 && b[b.len() - 1] == 115 {
        let digits: &[u8] = &b[0..b.len() - 1];
        proof {
            assert(digits@ =~= b@.take(b@.len() - 1));
            assert(b@.last() == 115);
        }
        return num_or_zero(digits, 1000);
    }
    if b.len() >= 1 && b[b.len() - 1] == 109 {
        let digits: &[u8] = &b[0..b.len() - 1];
        proof {
            assert(digits@ =~= b@.take(b@.len() - 1));
            if b@.len() >= 2 {
                assert(b@.subrange(b@.len() - 2, b@.len() as int)[1] == 109);
            }
        }
        return num_or_zero(digits, 60000);
    }
    proof {
        if b@.len() >= 2 && b@.subrange(b@.len() - 2, b@.len() as int) == "ms".spec_bytes() {
            assert(b@.last() == "ms".spec_bytes()[1]);
        }
    }
    0
}

/// Digit-string value times a unit, saturating; zero when not a number.
fn num_or_zero(digits: &[u8], unit: u64) -> (r: u64)
    requires
        1 <= unit <= 60000,
    ensures
        r as nat == spec_num_or_zero(digits@, unit as nat),
{
    match crate::stream::parse_u64(digits) {
        Some(v) => {
            if v > u64::MAX / unit {
                proof {
                    assert((v as nat) * (unit as nat) > u64::MAX) by (nonlinear_arith)
                        requires v > u64::MAX / unit, 1 <= unit <= 60000,
                    ;
                }
                u64::MAX
            } else {
                proof {
                    assert((v as nat) * (unit as nat) <= u64::MAX) by (nonlinear_arith)
                        requires v <= u64::MAX / unit, 1 <= unit <= 60000,
                    ;
                }
                v * unit
            }
        },
        None => 0,
    }
}

/// The outcome of one data source fetch attempt at render time.
pub enum FetchOutcome {
    /// The fetch succeeded with this raw JSON value.
    Value(Vec<u8>),
    /// The fetch failed terminally with this message.
    Failure(Vec<u8>),
    /// The fetch did not finish within the source's SSR timeout.
    TimedOut,
}

/// The stored value for a fetch outcome: the value itself, an `__error`
/// object, or `null` for a timeout.
pub open spec fn spec_outcome_value(o: FetchOutcome) -> Seq<u8> {
    match o {
        FetchOutcome::Value(v) => v@,
        FetchOutcome::Failure(e) => "{\"__error\":".spec_bytes() + spec_str_lit(e@)
            + seq![125u8],
        FetchOutcome::TimedOut => "null".spec_bytes(),
    }
}

/// Apply per-source fetch outcomes to the context: successful values are
/// stored, failures are stored as `{"__error":…}`, timed-out sources are set
/// to `null` and collected; the reserved `__loading` key is set to the list
/// of timed-out source keys, or removed when none timed out.
#[verifier::rlimit(80)]
pub fn apply_fetch_outcomes(
    ctx: &mut DataContext,
    outcomes: Vec<(String, FetchOutcome)>,
) -> (pending: Vec<String>)
    ensures
        final(ctx).config == old(ctx).config,
        pending@.len() <= outcomes@.len(),
        // the pending keys are exactly the timed-out keys, in order
        pending@.len() == outcomes@.filter(
            (|e: (String, FetchOutcome)| e.1 is TimedOut),
        ).len(),
        forall|k: int| 0 <= k < pending@.len()
            ==> (#[trigger] pending@[k])@ == outcomes@.filter(
                (|e: (String, FetchOutcome)| e.1 is TimedOut),
            )[k].0@,
        // each outcome's value is stored, later outcomes winning
        forall|k: int| 0 <= k < outcomes@.len()
            && (forall|j: int| k < j < outcomes@.len()
                ==> string_bytes((#[trigger] outcomes@[j]).0)
                    != string_bytes(outcomes@[k].0))
            && string_bytes(outcomes@[k].0) != "__loading".spec_bytes()
            ==> spec_value_of(final(ctx).values@, string_bytes((#[trigger] outcomes@[k]).0))
                == Some(spec_outcome_value(outcomes@[k].1)),
        // the loading marker lists the pending keys, or is absent
        pending@.len() > 0 ==> spec_value_of(final(ctx).values@, "__loading".spec_bytes())
            == Some(spec_key_array(pending@)),
        pending@.len() == 0 ==> spec_value_of(
            final(ctx).values@,
            "__loading".spec_bytes(),
        ) is None,
{
    let mut pending: Vec<String> = Vec::new();
    let mut i: usize = 0;
    let n = outcomes.len();
    let ghost tpred = (|e: (String, FetchOutcome)| e.1 is TimedOut);
    proof {
        assert(outcomes@.take(0).filter(tpred) =~= Seq::<(String, FetchOutcome)>::empty());
    }
    #[verifier::loop_isolation(false)]
    while i < n
        invariant
            n == outcomes@.len(),
            i <= n,
            ctx.config == old(ctx).config,
            pending@.len() == outcomes@.take(i as int).filter(tpred).len(),
            forall|k: int| 0 <= k < pending@.len()
                ==> (#[trigger] pending@[k])@ == outcomes@.take(i as int).filter(tpred)[k].0@,
            pending@.len() <= i,
            forall|k: int| 0 <= k < i
                && (forall|j: int| k < j < i
                    ==> string_bytes((#[trigger] outcomes@[j]).0)
                        != string_bytes(outcomes@[k].0))
                ==> spec_value_of(ctx.values@, string_bytes((#[trigger] outcomes@[k]).0))
                    == Some(spec_outcome_value(outcomes@[k].1)),
        decreases n - i,
    {
        proof {
            broadcast use vstd::seq_lib::group_seq_properties;
            reveal_with_fuel(Seq::filter, 2);
            assert(outcomes@.take(i + 1).drop_last() =~= outcomes@.take(i as int));
            assert(outcomes@.take(i + 1).last() == outcomes@[i as int]);
        }
        let entry = &outcomes[i];
        let key_copy = string_copy(&entry.0);
        match &entry.1 {
            FetchOutcome::Value(v) => {
                let vcopy = crate::transport::slice_take(v.as_slice(), v.len());
                ctx.set_value(key_copy, vcopy);
            },
            FetchOutcome::Failure(e) => {
                let mut obj: Vec<u8> = Vec::new();
                push_bytes(&mut obj, "{\"__error\":".as_bytes());
                push_str_lit(&mut obj, e.as_slice());
                obj.push(125);
                proof {
                    assert(obj@ =~= spec_outcome_value(outcomes@[i as int].1));
                }
                ctx.set_value(key_copy, obj);
            },
            FetchOutcome::TimedOut => {
                let mut nul: Vec<u8> = Vec::new();
                push_bytes(&mut nul, "null".as_bytes());
                proof {
                    assert(nul@ =~= "null".spec_bytes());
                }
                ctx.set_value(key_copy, nul);
                let pkey = string_copy(&entry.0);
                let ghost pre_p = pending@;
                pending.push(pkey);
                proof {
                    assert(pending@.drop_last() =~= pre_p);
                    assert(outcomes@.take(i + 1).filter(tpred)
                        =~= outcomes@.take(i as int).filter(tpred).push(outcomes@[i as int]));
                    assert(pending@.last()@ == outcomes@[i as int].0@);
                }
            },
        }
        proof {
            if !(outcomes@[i as int].1 is TimedOut) {
                assert(outcomes@.take(i + 1).filter(tpred)
                    =~= outcomes@.take(i as int).filter(tpred));
            }
        }
        i = i + 1;
    }
    proof {
        assert(outcomes@.take(n as int) =~= outcomes@);
    }
    if pending.len() > 0 {
        let arr = key_array(&pending);
        ctx.set_value(string_from("__loading"), arr);
    } else {
        ctx.remove_value("__loading");
    }
    pending
}

/// Remove the reserved `__loading` marker once deferred fetches finished.
pub fn clear_loading(ctx: &mut DataContext)
    ensures
        final(ctx).config == old(ctx).config,
        spec_value_of(final(ctx).values@, "__loading".spec_bytes()) is None,
        forall|k2: Seq<u8>| k2 != "__loading".spec_bytes()
            ==> #[trigger] spec_value_of(final(ctx).values@, k2)
                == spec_value_of(old(ctx).values@, k2),
{
    ctx.remove_value("__loading");
}

/// The JSON array of the pending source keys.
pub open spec fn spec_key_array(keys: Seq<String>) -> Seq<u8>
    decreases keys.len(),
{
    if keys.len() <= 0 {
        seq![91u8, 93u8]
    } else if keys.len() == 1 {
        seq![91u8] + spec_str_lit(string_bytes(keys[0])) + seq![93u8]
    } else {
        spec_key_array(keys.drop_last()).drop_last() + seq![44u8]
            + spec_str_lit(string_bytes(keys.last())) + seq![93u8]
    }
}

/// Build the JSON array of key strings.
pub fn key_array(keys: &Vec<String>) -> (r: Vec<u8>)
    ensures
        r@ == spec_key_array(keys@),
{
    let mut out: Vec<u8> = Vec::new();
    out.push(91);
    let mut i: usize = 0;
    let n = keys.len();
    #[verifier::loop_isolation(false)]
    while i < n
        invariant
            n == keys@.len(),
            i <= n,
            out@ == spec_key_array(keys@.take(i as int)).drop_last(),
        decreases n - i,
    {
        proof {
            assert(keys@.take(i + 1).drop_last() =~= keys@.take(i as int));
            assert(keys@.take(i + 1).last() == keys@[i as int]);
        }
        if i > 0 {
            out.push(44);
        }
        push_str_lit(&mut out, keys[i].as_str().as_bytes());
        proof {
            if i == 0 {
                assert(out@ =~= spec_key_array(keys@.take(1int)).drop_last());
            } else {
                assert(out@ =~= spec_key_array(keys@.take(i + 1)).drop_last());
            }
        }
        i = i + 1;
    }
    out.push(93);
    proof {
        assert(keys@.take(n as int) =~= keys@);
        assert(out@ =~= spec_key_array(keys@));
    }
    out
}

/// An owned copy of a string, with the same characters.
pub fn string_copy(s: &String) -> (r: String)
    ensures
        r@ == s@,
        string_bytes(r) == string_bytes(*s),
{
    let r = String::from_str(s.as_str());
    proof {
        assert(string_bytes(r) =~= string_bytes(*s));
    }
    r
}

/// An owned string from a literal.
pub fn string_from(s: &str) -> (r: String)
    ensures
        r@ == s@,
        string_bytes(r) == s.spec_bytes(),
{
    let r = String::from_str(s);
    proof {
        assert(string_bytes(r) =~= s.spec_bytes());
    }
    r
}

/// The raw value stored under a byte key in an environment list, if any.
pub open spec fn spec_env_of(env: Seq<(Vec<u8>, Vec<u8>)>, key: Seq<u8>) -> Option<Seq<u8>>
    decreases env.len(),
{
    if env.len() <= 0 {
        None
    } else if env[0].0@ == key {
        Some(env[0].1@)
    } else {
        spec_env_of(env.drop_first(), key)
    }
}

proof fn lemma_env_prefix(env: Seq<(Vec<u8>, Vec<u8>)>, key: Seq<u8>, i: int)
    requires
        0 <= i <= env.len(),
        forall|j: int| 0 <= j < i ==> (#[trigger] env[j]).0@ != key,
    ensures
        spec_env_of(env, key) == spec_env_of(env.skip(i), key),
    decreases i,
{
    if i > 0 {
        lemma_env_prefix(env.drop_first(), key, i - 1);
        assert(env.drop_first().skip(i - 1) =~= env.skip(i));
    } else {
        assert(env.skip(0) =~= env);
    }
}

/// First environment entry with the given name, if any.
pub fn env_lookup(env: &Vec<(Vec<u8>, Vec<u8>)>, name: &[u8]) -> (r: Option<usize>)
    ensures
        match r {
            Some(i) => i < env@.len() && spec_env_of(env@, name@) == Some(env@[i as int].1@),
            None => spec_env_of(env@, name@) is None,
        },
{
    let mut i: usize = 0;
    let n = env.len();
    while i < n
        invariant
            n == env@.len(),
            i <= n,
            forall|j: int| 0 <= j < i ==> (#[trigger] env@[j]).0@ != name@,
        decreases n - i,
    {
        if crate::parse::bytes_eq(env[i].0.as_slice(), name) {
            proof {
                lemma_env_prefix(env@, name@, i as int);
                assert(env@.skip(i as int)[0] == env@[i as int]);
            }
            return Some(i);
        }
        i = i + 1;
    }
    proof {
        lemma_env_prefix(env@, name@, i as int);
    }
    None
}

/// `template` with each `${payload.x}` replaced by the decoded string value
/// of the field `x` of the payload (empty when the field is absent or not a
/// string), scanning left to right.
pub open spec fn spec_interpolate(t: Seq<u8>, payload: Seq<u8>) -> Seq<u8>
    decreases t.len(),
{
    let m = "${payload.".spec_bytes();
    match crate::parse::spec_find(t, m) {
        None => t,
        Some(p) => if 0 <= p && m.len() >= 1 && p + m.len() <= t.len() {
            let after = t.skip(p + m.len());
            match crate::parse::spec_find_byte(after, 125) {
                None => t,
                Some(e) => if 0 <= e < after.len() {
                    let field = after.take(e);
                    let key = seq![34u8] + field + seq![34u8];
                    let f = crate::parse::spec_string_field(payload, key);
                    let repl: Seq<u8> = if f.1 {
                        f.0
                    } else {
                        Seq::<u8>::empty()
                    };
                    t.take(p) + repl + spec_interpolate(after.skip(e + 1), payload)
                } else {
                    t
                },
            }
        } else {
            t
        },
    }
}

/// `s` with each `${env.X}` replaced by the value of `X` in the supplied
/// environment (empty when absent), scanning left to right.
pub open spec fn spec_resolve_env(s: Seq<u8>, env: Seq<(Vec<u8>, Vec<u8>)>) -> Seq<u8>
    decreases s.len(),
{
    let m = "${env.".spec_bytes();
    match crate::parse::spec_find(s, m) {
        None => s,
        Some(p) => if 0 <= p && m.len() >= 1 && p + m.len() <= s.len() {
            let after = s.skip(p + m.len());
            match crate::parse::spec_find_byte(after, 125) {
                None => s,
                Some(e) => if 0 <= e < after.len() {
                    let name = after.take(e);
                    let repl: Seq<u8> = match spec_env_of(env, name) {
                        Some(v) => v,
                        None => Seq::<u8>::empty(),
                    };
                    s.take(p) + repl + spec_resolve_env(after.skip(e + 1), env)
                } else {
                    s
                },
            }
        } else {
            s
        },
    }
}

/// Replace `${env.X}` placeholders from the supplied environment.
pub fn resolve_env_vars(s: &[u8], env: &Vec<(Vec<u8>, Vec<u8>)>) -> (r: Vec<u8>)
    ensures
        r@ == spec_resolve_env(s@, env@),
    decreases s@.len(),
{
    let slen: usize = s.len();
    let marker: &[u8] = "${env.".as_bytes();
    if marker.len() == 0 {
        return crate::transport::slice_take(s, s.len());
    }
    let p = match crate::parse::find_subslice(s, marker) {
        Some(p) => p,
        None => {
            return crate::transport::slice_take(s, s.len());
        },
    };
    let after: &[u8] = &s[p + marker.len()..s.len()];
    proof {
        assert(after@ =~= s@.skip(p + "${env.".spec_bytes().len()));
    }
    let e = match crate::parse::find_byte(after, 125) {
        Some(e) => e,
        None => {
            return crate::transport::slice_take(s, s.len());
        },
    };
    let name: &[u8] = &after[0..e];
    proof {
        assert(name@ =~= after@.take(e as int));
    }
    let mut out = crate::transport::slice_take(&s[0..p], p);
    proof {
        assert(s@.subrange(0, p as int).take(p as int) =~= s@.take(p as int));
    }
    match env_lookup(env, name) {
        Some(i) => {
            push_bytes(&mut out, env[i].1.as_slice());
        },
        None => {
            proof {
                assert(out@ =~= s@.take(p as int) + Seq::<u8>::empty());
            }
        },
    }
    let rest: &[u8] = &after[e + 1..after.len()];
    proof {
        assert(rest@ =~= after@.skip(e + 1));
    }
    let tail = resolve_env_vars(rest, env);
    push_bytes(&mut out, tail.as_slice());
    proof {
        assert(out@ =~= spec_resolve_env(s@, env@));
    }
    out
}

/// Replace `${payload.x}` placeholders with decoded payload string fields.
pub fn interpolate_payload(template: &[u8], payload: &[u8]) -> (r: Vec<u8>)
    ensures
        r@ == spec_interpolate(template@, payload@),
    decreases template@.len(),
{
    let tlen: usize = template.len();
    let marker: &[u8] = "${payload.".as_bytes();
    if marker.len() == 0 {
        return crate::transport::slice_take(template, template.len());
    }
    let p = match crate::parse::find_subslice(template, marker) {
        Some(p) => p,
        None => {
            return crate::transport::slice_take(template, template.len());
        },
    };
    let after: &[u8] = &template[p + marker.len()..template.len()];
    proof {
        assert(after@ =~= template@.skip(p + "${payload.".spec_bytes().len()));
    }
    let e = match crate::parse::find_byte(after, 125) {
        Some(e) => e,
        None => {
            return crate::transport::slice_take(template, template.len());
        },
    };
    let field: &[u8] = &after[0..e];
    proof {
        assert(field@ =~= after@.take(e as int));
    }
    let mut key: Vec<u8> = Vec::new();
    key.push(34);
    push_bytes(&mut key, field);
    key.push(34);
    proof {
        assert(key@ =~= seq![34u8] + after@.take(e as int) + seq![34u8]);
    }
    let mut repl: Vec<u8> = Vec::new();
    let ok = crate::parse::extract_string_field_vec(payload, key.as_slice(), &mut repl);
    let mut out = crate::transport::slice_take(&template[0..p], p);
    proof {
        assert(template@.subrange(0, p as int).take(p as int) =~= template@.take(p as int));
    }
    if ok {
        push_bytes(&mut out, repl.as_slice());
    } else {
        proof {
            assert(out@ =~= template@.take(p as int) + Seq::<u8>::empty());
        }
    }
    let rest: &[u8] = &after[e + 1..after.len()];
    proof {
        assert(rest@ =~= after@.skip(e + 1));
    }
    let tail = interpolate_payload(rest, payload);
    push_bytes(&mut out, tail.as_slice());
    proof {
        assert(out@ =~= spec_interpolate(template@, payload@));
    }
    out
}

/// Interpolate `${payload.x}` placeholders in a URL template from an action
/// payload, then resolve `${env.X}` placeholders from the environment.
pub fn interpolate_url(
    template: &[u8],
    payload: &[u8],
    env: &Vec<(Vec<u8>, Vec<u8>)>,
) -> (r: Vec<u8>)
    ensures
        r@ == spec_resolve_env(spec_interpolate(template@, payload@), env@),
{
    let filled = interpolate_payload(template, payload);
    resolve_env_vars(filled.as_slice(), env)
}

/// The delay before fetch retry attempt `attempt` (the first request is
/// attempt zero and waits nothing): 200 ms, doubling per retry, capped at
/// 3200 ms.
pub fn fetch_backoff_ms(attempt: u32) -> (r: u64)
    requires
        attempt >= 1,
    ensures
        attempt == 1 ==> r == 200,
        attempt == 2 ==> r == 400,
        attempt == 3 ==> r == 800,
        attempt == 4 ==> r == 1600,
        attempt >= 5 ==> r == 3200,
{
    if attempt == 1 {
        200
    } else if attempt == 2 {
        400
    } else if attempt == 3 {
        800
    } else if attempt == 4 {
        1600
    } else {
        3200
    }
}

} // verus!
