//! The typed in-memory data engine: the key space, the TTL side table, the
//! per-command apply functions, and the merge operator.

use vstd::prelude::*;
use crate::command::{AuthCmd, Context, SetCmd, GetSetCmd, GetCmd, DelCmd, ExistsCmd, IncrByCmd,
    TTLCmd, PersistCmd, ExpireCmd, ExpireAtCmd, KeysCmd, RandomKeyCmd, InfoCmd, DBSizeCmd,
    JSetRawCmd, JSetCmd, JMergeCmd, JGetCmd, JPathCmd, JDelCmd, JRemCmd, JIncrByCmd,
    JIncrByFloatCmd, GeoAddCmd, GeoHashCmd, GeoPosCmd, GeoJsonCmd, GeoRemoveCmd, GeoDelCmd,
    GeoRadiusCmd, GeoRadiusByMemberCmd, GeoDistCmd, ArgOrder, Command, PingCmd};
use crate::geo::GeoTree;
use crate::json::{Json, JsonModel, jmodel, jser};
use crate::printer::{bulk_reply, error_reply, int_reply, simple_reply, print_err, print_integer,
    print_ok, print_str, print_string};
use crate::text::dec_chars;
use crate::unit_conv::Units;

verus! {

/// A stored value: one of the five value shapes, or the null a fresh JSON
/// document starts from. Floats keep their decimal text, since the engine
/// never computes with them.
pub enum Data {
    String(String),
    Int(i64),
    Float(String),
    Json(Json),
    GeoTree(GeoTree),
    Null,
}

/// The mathematical shape of a stored value.
pub enum DataModel {
    Str(Seq<char>),
    Int(i64),
    Float(Seq<char>),
    Json(JsonModel),
    Geo(Seq<(Seq<char>, i64, i64)>),
    Null,
}

pub open spec fn geo_members(t: GeoTree) -> Seq<(Seq<char>, i64, i64)> {
    t.spec_points().map_values(
        |p: crate::geo::GeoPoint2D| (p.tag@, p.spec_x(), p.spec_y()),
    )
}

pub open spec fn data_model(d: Data) -> DataModel {
    match d {
        Data::String(s) => DataModel::Str(s@),
        Data::Int(i) => DataModel::Int(i),
        Data::Float(t) => DataModel::Float(t@),
        Data::Json(j) => DataModel::Json(jmodel(j)),
        Data::GeoTree(t) => DataModel::Geo(geo_members(t)),
        Data::Null => DataModel::Null,
    }
}

/// A stored value is well formed when its geo index is.
pub open spec fn data_wf(d: Data) -> bool {
    match d {
        Data::GeoTree(t) => t.wf(),
        _ => true,
    }
}

/// The key space and the TTL side table, both association lists with
/// unique keys.
pub struct Store {
    pub entries: Vec<(String, Data)>,
    pub ttl: Vec<(String, i64)>,
}

/// The index of a key among entries, or the entry count when absent.
pub open spec fn kidx<T>(es: Seq<(String, T)>, k: Seq<char>) -> int
    decreases es.len(),
{
    if es.len() == 0 {
        0
    } else if es[0].0@ == k {
        0
    } else {
        1 + kidx(es.drop_first(), k)
    }
}

pub open spec fn khas<T>(es: Seq<(String, T)>, k: Seq<char>) -> bool {
    kidx(es, k) < es.len()
}

pub proof fn lemma_kidx<T>(es: Seq<(String, T)>, k: Seq<char>)
    ensures
        0 <= kidx(es, k) <= es.len(),
        kidx(es, k) < es.len() ==> es[kidx(es, k)].0@ == k,
        forall|j: int| 0 <= j < kidx(es, k) ==> es[j].0@ != k,
    decreases es.len(),
{
    if es.len() > 0 && es[0].0@ != k {
        lemma_kidx(es.drop_first(), k);
        assert forall|j: int| 0 <= j < kidx(es, k) implies es[j].0@ != k by {
            if j > 0 {
                assert(es.drop_first()[j - 1] == es[j]);
            }
        }
    }
}

pub proof fn lemma_kidx_is<T>(es: Seq<(String, T)>, k: Seq<char>, i: int)
    requires
        0 <= i <= es.len(),
        i < es.len() ==> es[i].0@ == k,
        forall|j: int| 0 <= j < i ==> es[j].0@ != k,
    ensures
        kidx(es, k) == i,
    decreases es.len(),
{
    if es.len() > 0 && es[0].0@ != k {
        lemma_kidx_is(es.drop_first(), k, i - 1);
    }
}

impl Store {
    /// The store is well formed when both tables have unique keys and every
    /// value is well formed.
    pub open spec fn wf(&self) -> bool {
        &&& (forall|i: int, j: int|
            0 <= i < j < self.entries@.len() ==> (#[trigger] self.entries@[i]).0@ != (
            #[trigger] self.entries@[j]).0@)
        &&& (forall|i: int, j: int|
            0 <= i < j < self.ttl@.len() ==> (#[trigger] self.ttl@[i]).0@ != (
            #[trigger] self.ttl@[j]).0@)
        &&& (forall|i: int| 0 <= i < self.entries@.len() ==> data_wf((#[trigger] self.entries@[i]).1))
    }

    /// The value stored under a key.
    pub open spec fn val(&self, k: Seq<char>) -> Option<DataModel> {
        if khas(self.entries@, k) {
            Some(data_model(self.entries@[kidx(self.entries@, k)].1))
        } else {
            None
        }
    }

    /// The absolute expiry of a key, where one is set.
    pub open spec fn expiry(&self, k: Seq<char>) -> Option<i64> {
        if khas(self.ttl@, k) {
            Some(self.ttl@[kidx(self.ttl@, k)].1)
        } else {
            None
        }
    }

    /// A key is live at `now` when it is present and not expired.
    pub open spec fn live(&self, k: Seq<char>, now: i64) -> bool {
        self.val(k) is Some && match self.expiry(k) {
            Some(e) => e > now,
            None => true,
        }
    }

    pub fn new() -> (r: Store)
        ensures
            r.wf(),
            r.entries@.len() == 0,
            r.ttl@.len() == 0,
    {
        Store { entries: Vec::new(), ttl: Vec::new() }
    }

    /// Finds a key's position among the entries.
    pub fn find(&self, key: &str) -> (r: Option<usize>)
        ensures
            khas(self.entries@, key@) ==> (r matches Some(i) && i == kidx(self.entries@, key@)),
            !khas(self.entries@, key@) ==> r is None,
    {
        let mut i: usize = 0;
        while i < self.entries.len()
            invariant
                i <= self.entries@.len(),
                forall|j: int| 0 <= j < i ==> (#[trigger] self.entries@[j]).0@ != key@,
            decreases self.entries@.len() - i,
        {
            if crate::utils::str_eq(self.entries[i].0.as_str(), key) {
                proof {
                    lemma_kidx_is(self.entries@, key@, i as int);
                }
                return Some(i);
            }
            i = i + 1;
        }
        proof {
            lemma_kidx_is(self.entries@, key@, self.entries@.len() as int);
        }
        None
    }

    pub fn find_ttl_pub(&self, key: &str) -> (r: Option<usize>)
        ensures
            khas(self.ttl@, key@) ==> (r matches Some(i) && i == kidx(self.ttl@, key@)),
            !khas(self.ttl@, key@) ==> r is None,
    {
        let mut i: usize = 0;
        while i < self.ttl.len()
            invariant
                i <= self.ttl@.len(),
                forall|j: int| 0 <= j < i ==> (#[trigger] self.ttl@[j]).0@ != key@,
            decreases self.ttl@.len() - i,
        {
            if crate::utils::str_eq(self.ttl[i].0.as_str(), key) {
                proof {
                    lemma_kidx_is(self.ttl@, key@, i as int);
                }
                return Some(i);
            }
            i = i + 1;
        }
        proof {
            lemma_kidx_is(self.ttl@, key@, self.ttl@.len() as int);
        }
        None
    }

    /// Stores a value under a key, replacing any old one.
    pub fn put(&mut self, key: String, d: Data)
        requires
            old(self).wf(),
            data_wf(d),
        ensures
            final(self).wf(),
            final(self).val(key@) == Some(data_model(d)),
            forall|k: Seq<char>| k != key@ ==> final(self).val(k) == old(self).val(k),
            final(self).ttl@ == old(self).ttl@,
    {
        let ghost es0 = self.entries@;
        let ghost dm = data_model(d);
        let ghost kv = key@;
        proof {
            lemma_kidx(es0, kv);
        }
        match self.find(key.as_str()) {
            Some(i) => {
                self.entries.set(i, (key, d));
                proof {
                    lemma_store_update(es0, self.entries@, i as int, kv, dm);
                }
            },
            None => {
                self.entries.push((key, d));
                proof {
                    lemma_store_push(es0, self.entries@, kv, dm);
                }
            },
        }
    }

    /// Removes a key from the entries; reports whether it was there.
    pub fn remove_key(&mut self, key: &str) -> (r: bool)
        requires
            old(self).wf(),
        ensures
            final(self).wf(),
            r == khas(old(self).entries@, key@),
            final(self).val(key@) is None,
            forall|k: Seq<char>| k != key@ ==> final(self).val(k) == old(self).val(k),
            final(self).ttl@ == old(self).ttl@,
    {
        let ghost es0 = self.entries@;
        proof {
            lemma_kidx(es0, key@);
        }
        match self.find(key) {
            Some(i) => {
                let _gone = self.entries.remove(i);
                proof {
                    lemma_store_remove(es0, self.entries@, i as int, key@);
                }
                true
            },
            None => {
                false
            },
        }
    }

    /// Sets a key's absolute expiry.
    pub fn set_expiry(&mut self, key: String, at: i64)
        requires
            old(self).wf(),
        ensures
            final(self).wf(),
            final(self).expiry(key@) == Some(at),
            forall|k: Seq<char>| k != key@ ==> final(self).expiry(k) == old(self).expiry(k),
            final(self).entries@ == old(self).entries@,
    {
        let ghost ts0 = self.ttl@;
        let ghost kv = key@;
        proof {
            lemma_kidx(ts0, kv);
        }
        match self.find_ttl_pub(key.as_str()) {
            Some(i) => {
                self.ttl.set(i, (key, at));
                proof {
                    lemma_ttl_update(ts0, self.ttl@, i as int, kv, at);
                }
            },
            None => {
                self.ttl.push((key, at));
                proof {
                    lemma_ttl_push(ts0, self.ttl@, kv, at);
                }
            },
        }
    }

    /// Drops a key's expiry; reports whether one was set.
    pub fn clear_expiry(&mut self, key: &str) -> (r: bool)
        requires
            old(self).wf(),
        ensures
            final(self).wf(),
            r == khas(old(self).ttl@, key@),
            final(self).expiry(key@) is None,
            forall|k: Seq<char>| k != key@ ==> final(self).expiry(k) == old(self).expiry(k),
            final(self).entries@ == old(self).entries@,
            r ==> final(self).ttl@.len() == old(self).ttl@.len() - 1,
            !r ==> final(self).ttl@ == old(self).ttl@,
    {
        let ghost ts0 = self.ttl@;
        proof {
            lemma_kidx(ts0, key@);
        }
        match self.find_ttl_pub(key) {
            Some(i) => {
                let _gone = self.ttl.remove(i);
                proof {
                    lemma_ttl_remove(ts0, self.ttl@, i as int, key@);
                }
                true
            },
            None => {
                false
            },
        }
    }

    /// Removes an expired key; afterwards the key is live or absent.
    /// Reports whether the key is present (and live) on return.
    pub fn reap(&mut self, key: &str, now: i64) -> (r: bool)
        requires
            old(self).wf(),
        ensures
            final(self).wf(),
            r == old(self).live(key@, now),
            r ==> final(self).val(key@) == old(self).val(key@) && *final(self) == *old(self),
            !r ==> final(self).val(key@) is None,
            forall|k: Seq<char>| k != key@ ==> final(self).val(k) == old(self).val(k),
            forall|k: Seq<char>| k != key@ ==> final(self).expiry(k) == old(self).expiry(k),
    {
        let present = match self.find(key) {
            Some(_) => true,
            None => false,
        };
        if !present {
            return false;
        }
        let expired = match self.find_ttl_pub(key) {
            Some(i) => self.ttl[i].1 <= now,
            None => false,
        };
        if expired {
            self.remove_key(key);
            self.clear_expiry(key);
            false
        } else {
            true
        }
    }
}

proof fn lemma_store_update(
    es0: Seq<(String, Data)>,
    es1: Seq<(String, Data)>,
    i: int,
    kv: Seq<char>,
    dm: DataModel,
)
    requires
        0 <= i < es0.len(),
        es1.len() == es0.len(),
        kidx(es0, kv) == i,
        es0[i].0@ == kv,
        es1[i].0@ == kv,
        data_model(es1[i].1) == dm,
        forall|j: int| 0 <= j < es0.len() && j != i ==> es1[j] == es0[j],
    ensures
        kidx(es1, kv) == i,
        khas(es1, kv),
        forall|k: Seq<char>|
            k != kv ==> #[trigger] kidx(es1, k) == kidx(es0, k) && (khas(es1, k) ==> es1[kidx(
                es1,
                k,
            )] == es0[kidx(es0, k)]),
{
    lemma_kidx(es0, kv);
    lemma_kidx_is(es1, kv, i);
    assert forall|k: Seq<char>| k != kv implies #[trigger] kidx(es1, k) == kidx(es0, k) && (khas(
        es1,
        k,
    ) ==> es1[kidx(es1, k)] == es0[kidx(es0, k)]) by {
        lemma_kidx(es0, k);
        let i0 = kidx(es0, k);
        if i0 < es0.len() {
            if i0 == i {
                assert(es0[i].0@ == k);
                assert(false);
            }
            lemma_kidx_is(es1, k, i0);
        } else {
            assert forall|j: int| 0 <= j < es1.len() implies (#[trigger] es1[j]).0@ != k by {
                if j == i {
                } else {
                    assert(es1[j] == es0[j]);
                }
            }
            lemma_kidx_is(es1, k, es1.len() as int);
        }
    }
}

proof fn lemma_store_push(
    es0: Seq<(String, Data)>,
    es1: Seq<(String, Data)>,
    kv: Seq<char>,
    dm: DataModel,
)
    requires
        es1.len() == es0.len() + 1,
        !khas(es0, kv),
        es1[es0.len() as int].0@ == kv,
        data_model(es1[es0.len() as int].1) == dm,
        forall|j: int| 0 <= j < es0.len() ==> es1[j] == es0[j],
    ensures
        kidx(es1, kv) == es0.len(),
        khas(es1, kv),
        forall|k: Seq<char>|
            k != kv ==> (khas(es1, k) == khas(es0, k)) && (khas(es1, k) ==> es1[kidx(es1, k)]
                == es0[kidx(es0, k)]),
{
    lemma_kidx(es0, kv);
    lemma_kidx_is(es1, kv, es0.len() as int);
    assert forall|k: Seq<char>| k != kv implies (khas(es1, k) == khas(es0, k)) && (khas(es1, k)
        ==> es1[kidx(es1, k)] == es0[kidx(es0, k)]) by {
        lemma_kidx(es0, k);
        let i0 = kidx(es0, k);
        if i0 < es0.len() {
            lemma_kidx_is(es1, k, i0);
        } else {
            lemma_kidx_is(es1, k, es1.len() as int);
        }
    }
}

proof fn lemma_store_remove(
    es0: Seq<(String, Data)>,
    es1: Seq<(String, Data)>,
    i: int,
    kv: Seq<char>,
)
    requires
        0 <= i < es0.len(),
        kidx(es0, kv) == i,
        es0[i].0@ == kv,
        forall|a: int, b: int| 0 <= a < b < es0.len() ==> (#[trigger] es0[a]).0@ != (
        #[trigger] es0[b]).0@,
        es1 == es0.remove(i),
    ensures
        !khas(es1, kv),
        forall|k: Seq<char>|
            k != kv ==> (khas(es1, k) == khas(es0, k)) && (khas(es1, k) ==> es1[kidx(es1, k)]
                == es0[kidx(es0, k)]),
{
    lemma_kidx(es0, kv);
    assert forall|j: int| 0 <= j < es1.len() implies (#[trigger] es1[j]).0@ != kv by {
        if j < i {
            assert(es1[j] == es0[j]);
        } else {
            assert(es1[j] == es0[j + 1]);
        }
    }
    lemma_kidx_is(es1, kv, es1.len() as int);
    assert forall|k: Seq<char>| k != kv implies (khas(es1, k) == khas(es0, k)) && (khas(es1, k)
        ==> es1[kidx(es1, k)] == es0[kidx(es0, k)]) by {
        lemma_kidx(es0, k);
        let i0 = kidx(es0, k);
        if i0 < es0.len() {
            if i0 < i {
                assert(es1[i0] == es0[i0]);
                lemma_kidx_is(es1, k, i0);
            } else {
                assert(i0 != i);
                assert(es1[i0 - 1] == es0[i0]);
                assert forall|j: int| 0 <= j < i0 - 1 implies (#[trigger] es1[j]).0@ != k by {
                    if j < i {
                        assert(es1[j] == es0[j]);
                    } else {
                        assert(es1[j] == es0[j + 1]);
                    }
                }
                lemma_kidx_is(es1, k, i0 - 1);
            }
        } else {
            assert forall|j: int| 0 <= j < es1.len() implies (#[trigger] es1[j]).0@ != k by {
                if j < i {
                    assert(es1[j] == es0[j]);
                } else {
                    assert(es1[j] == es0[j + 1]);
                }
            }
            lemma_kidx_is(es1, k, es1.len() as int);
        }
    }
}

proof fn lemma_ttl_update(
    ts0: Seq<(String, i64)>,
    ts1: Seq<(String, i64)>,
    i: int,
    kv: Seq<char>,
    at: i64,
)
    requires
        0 <= i < ts0.len(),
        ts1.len() == ts0.len(),
        kidx(ts0, kv) == i,
        ts0[i].0@ == kv,
        ts1[i].0@ == kv,
        ts1[i].1 == at,
        forall|j: int| 0 <= j < ts0.len() && j != i ==> ts1[j] == ts0[j],
    ensures
        kidx(ts1, kv) == i,
        khas(ts1, kv),
        forall|k: Seq<char>|
            k != kv ==> #[trigger] kidx(ts1, k) == kidx(ts0, k) && (khas(ts1, k) ==> ts1[kidx(
                ts1,
                k,
            )] == ts0[kidx(ts0, k)]),
{
    lemma_kidx(ts0, kv);
    lemma_kidx_is(ts1, kv, i);
    assert forall|k: Seq<char>| k != kv implies #[trigger] kidx(ts1, k) == kidx(ts0, k) && (khas(
        ts1,
        k,
    ) ==> ts1[kidx(ts1, k)] == ts0[kidx(ts0, k)]) by {
        lemma_kidx(ts0, k);
        let i0 = kidx(ts0, k);
        if i0 < ts0.len() {
            if i0 == i {
                assert(false);
            }
            lemma_kidx_is(ts1, k, i0);
        } else {
            assert forall|j: int| 0 <= j < ts1.len() implies (#[trigger] ts1[j]).0@ != k by {
                if j == i {
                } else {
                    assert(ts1[j] == ts0[j]);
                }
            }
            lemma_kidx_is(ts1, k, ts1.len() as int);
        }
    }
}

proof fn lemma_ttl_push(ts0: Seq<(String, i64)>, ts1: Seq<(String, i64)>, kv: Seq<char>, at: i64)
    requires
        ts1.len() == ts0.len() + 1,
        !khas(ts0, kv),
        ts1[ts0.len() as int].0@ == kv,
        ts1[ts0.len() as int].1 == at,
        forall|j: int| 0 <= j < ts0.len() ==> ts1[j] == ts0[j],
    ensures
        kidx(ts1, kv) == ts0.len(),
        khas(ts1, kv),
        forall|k: Seq<char>|
            k != kv ==> (khas(ts1, k) == khas(ts0, k)) && (khas(ts1, k) ==> ts1[kidx(ts1, k)]
                == ts0[kidx(ts0, k)]),
{
    lemma_kidx(ts0, kv);
    lemma_kidx_is(ts1, kv, ts0.len() as int);
    assert forall|k: Seq<char>| k != kv implies (khas(ts1, k) == khas(ts0, k)) && (khas(ts1, k)
        ==> ts1[kidx(ts1, k)] == ts0[kidx(ts0, k)]) by {
        lemma_kidx(ts0, k);
        let i0 = kidx(ts0, k);
        if i0 < ts0.len() {
            lemma_kidx_is(ts1, k, i0);
        } else {
            lemma_kidx_is(ts1, k, ts1.len() as int);
        }
    }
}

proof fn lemma_ttl_remove(ts0: Seq<(String, i64)>, ts1: Seq<(String, i64)>, i: int, kv: Seq<char>)
    requires
        0 <= i < ts0.len(),
        kidx(ts0, kv) == i,
        ts0[i].0@ == kv,
        forall|a: int, b: int| 0 <= a < b < ts0.len() ==> (#[trigger] ts0[a]).0@ != (
        #[trigger] ts0[b]).0@,
        ts1 == ts0.remove(i),
    ensures
        !khas(ts1, kv),
        forall|k: Seq<char>|
            k != kv ==> (khas(ts1, k) == khas(ts0, k)) && (khas(ts1, k) ==> ts1[kidx(ts1, k)]
                == ts0[kidx(ts0, k)]),
{
    lemma_kidx(ts0, kv);
    assert forall|j: int| 0 <= j < ts1.len() implies (#[trigger] ts1[j]).0@ != kv by {
        if j < i {
            assert(ts1[j] == ts0[j]);
        } else {
            assert(ts1[j] == ts0[j + 1]);
        }
    }
    lemma_kidx_is(ts1, kv, ts1.len() as int);
    assert forall|k: Seq<char>| k != kv implies (khas(ts1, k) == khas(ts0, k)) && (khas(ts1, k)
        ==> ts1[kidx(ts1, k)] == ts0[kidx(ts0, k)]) by {
        lemma_kidx(ts0, k);
        let i0 = kidx(ts0, k);
        if i0 < ts0.len() {
            if i0 < i {
                assert(ts1[i0] == ts0[i0]);
                lemma_kidx_is(ts1, k, i0);
            } else {
                assert(i0 != i);
                assert(ts1[i0 - 1] == ts0[i0]);
                assert forall|j: int| 0 <= j < i0 - 1 implies (#[trigger] ts1[j]).0@ != k by {
                    if j < i {
                        assert(ts1[j] == ts0[j]);
                    } else {
                        assert(ts1[j] == ts0[j + 1]);
                    }
                }
                lemma_kidx_is(ts1, k, i0 - 1);
            }
        } else {
            assert forall|j: int| 0 <= j < ts1.len() implies (#[trigger] ts1[j]).0@ != k by {
                if j < i {
                    assert(ts1[j] == ts0[j]);
                } else {
                    assert(ts1[j] == ts0[j + 1]);
                }
            }
            lemma_kidx_is(ts1, k, ts1.len() as int);
        }
    }
}


/// What the store-level merge operator yields for an old and a new value:
/// strings append, integers and floats take the newer value, documents
/// deep-merge, geo indexes take the union of points by tag with the newer
/// coordinates winning, a missing or null old value takes the new one, and
/// a mixed-variant merge is a conflict that keeps the old value.
pub open spec fn merge_post(old_m: Option<DataModel>, new_m: DataModel, r_m: DataModel) -> bool {
    match old_m {
        None => r_m == new_m,
        Some(DataModel::Null) => r_m == new_m,
        Some(DataModel::Str(a)) => match new_m {
            DataModel::Str(b) => r_m == DataModel::Str(a + b),
            _ => r_m == DataModel::Str(a),
        },
        Some(DataModel::Int(a)) => match new_m {
            DataModel::Int(b) => r_m == DataModel::Int(b),
            _ => r_m == DataModel::Int(a),
        },
        Some(DataModel::Float(a)) => match new_m {
            DataModel::Float(b) => r_m == DataModel::Float(b),
            _ => r_m == DataModel::Float(a),
        },
        Some(DataModel::Json(a)) => match new_m {
            DataModel::Json(b) => r_m == DataModel::Json(crate::json::jmerge_model(a, b)),
            _ => r_m == DataModel::Json(a),
        },
        Some(DataModel::Geo(a)) => match new_m {
            DataModel::Geo(b) => r_m == DataModel::Geo(m_upsert_all(a, members_as_items(b))),
            _ => r_m == DataModel::Geo(a),
        },
    }
}

/// The merge operator the persistent layer installs: combines a key's old
/// value with an incoming one so concurrent updates and replays converge.
pub fn merge_data(old_v: Option<Data>, new_v: Data) -> (r: Data)
    requires
        old_v matches Some(d) ==> data_wf(d),
        data_wf(new_v),
    ensures
        data_wf(r),
        merge_post(
            match old_v {
                Some(d) => Some(data_model(d)),
                None => None,
            },
            data_model(new_v),
            data_model(r),
        ),
{
    let old_d = match old_v {
        Some(d) => d,
        None => {
            return new_v;
        },
    };
    match old_d {
        Data::Null => new_v,
        Data::String(a) => match new_v {
            Data::String(ref b) => {
                let joined = a.concat(b.as_str());
                Data::String(joined)
            },
            _ => Data::String(a),
        },
        Data::Int(a) => match new_v {
            Data::Int(b) => Data::Int(b),
            _ => Data::Int(a),
        },
        Data::Float(a) => match new_v {
            Data::Float(b) => Data::Float(b),
            _ => Data::Float(a),
        },
        Data::Json(a) => match new_v {
            Data::Json(ref b) => Data::Json(crate::json::deep_merge(a, b)),
            _ => Data::Json(a),
        },
        Data::GeoTree(mut a) => match new_v {
            Data::GeoTree(ref b) => {
                a.merge_from(b);
                proof {
                    assert(geo_members(a) =~= geo_members_of(a.spec_points()));
                }
                Data::GeoTree(a)
            },
            _ => Data::GeoTree(a),
        },
    }
}

/// The reply carrying a stored value: typed per variant.
pub open spec fn data_reply(m: DataModel) -> Seq<char> {
    match m {
        DataModel::Str(s) => bulk_reply(s),
        DataModel::Int(i) => int_reply(i as int),
        DataModel::Float(t) => bulk_reply(t),
        DataModel::Json(j) => bulk_reply(jser(j)),
        DataModel::Geo(ps) => crate::printer::nested_arr_reply(
            ps.map_values(
                |p: (Seq<char>, i64, i64)| seq![
                    crate::geo::fmt_e7(p.1),
                    crate::geo::fmt_e7(p.2),
                ],
            ),
        ),
        DataModel::Null => simple_reply("nil"@),
    }
}

/// Renders a stored value as its typed reply.
pub fn data_to_resp(d: &Data) -> (r: String)
    ensures
        r@ == data_reply(data_model(*d)),
{
    match *d {
        Data::String(ref s) => print_string(s),
        Data::Int(i) => print_integer(i),
        Data::Float(ref t) => print_string(t),
        Data::Json(ref j) => {
            let text = crate::json::json_to_string(j);
            print_string(&text)
        },
        Data::GeoTree(ref t) => {
            let ghost members = geo_members(*t);
            let mut rows: Vec<Vec<String>> = Vec::new();
            let mut i: usize = 0;
            while i < t.points.len()
                invariant
                    i <= t.points@.len(),
                    members == geo_members(*t),
                    members.len() == t.points@.len(),
                    rows@.map_values(|v: Vec<String>| v@.map_values(|s: String| s@))
                        =~= members.map_values(
                        |p: (Seq<char>, i64, i64)| seq![
                            crate::geo::fmt_e7(p.1),
                            crate::geo::fmt_e7(p.2),
                        ],
                    ).take(i as int),
                decreases t.points@.len() - i,
            {
                let ghost pre = rows@.map_values(|v: Vec<String>| v@.map_values(|s: String| s@));
                let mut row: Vec<String> = Vec::new();
                row.push(crate::geo::format_e7(t.points[i].x_cord()));
                row.push(crate::geo::format_e7(t.points[i].y_cord()));
                proof {
                    assert(row@.map_values(|s: String| s@) =~= seq![
                        crate::geo::fmt_e7(members[i as int].1),
                        crate::geo::fmt_e7(members[i as int].2),
                    ]);
                }
                rows.push(row);
                proof {
                    assert(rows@.map_values(|v: Vec<String>| v@.map_values(|s: String| s@))
                        =~= pre.push(rows@.last()@.map_values(|s: String| s@)));
                }
                i = i + 1;
            }
            proof {
                let m2 = members.map_values(
                    |p: (Seq<char>, i64, i64)| seq![
                        crate::geo::fmt_e7(p.1),
                        crate::geo::fmt_e7(p.2),
                    ],
                );
                assert(m2.take(m2.len() as int) =~= m2);
            }
            let reply = crate::printer::print_nested_arr(rows);
            reply
        },
        Data::Null => print_str("nil"),
    }
}

/// AUTH: records the client's key and reports whether it now matches; with
/// authentication off the reply is always OK.
pub fn auth(context: &mut Context, cmd: &AuthCmd) -> (r: String)
    ensures
        final(context).client_auth_key matches Some(k) && k@ == cmd.arg_password@,
        final(context).auth_key == old(context).auth_key,
        final(context).auth_is_required == old(context).auth_is_required,
        !old(context).auth_is_required ==> r@ == simple_reply("OK"@),
        old(context).auth_is_required ==> ({
            let ok = old(context).auth_key matches Some(k) && k@ == cmd.arg_password@;
            &&& final(context).client_authenticated == ok
            &&& (ok ==> r@ == simple_reply("OK"@))
            &&& (!ok ==> r@ == error_reply("ERR auth failed"@))
        }),
{
    context.client_auth_key = Some(cmd.arg_password.clone());
    if !context.auth_is_required {
        return crate::printer::print_ok();
    }
    let ok = match (&context.auth_key, &context.client_auth_key) {
        (Some(k), Some(c)) => crate::utils::str_eq(k.as_str(), c.as_str()),
        _ => false,
    };
    context.client_authenticated = ok;
    if ok {
        crate::printer::print_ok()
    } else {
        crate::printer::print_err("ERR auth failed")
    }
}

/// SET: stores an integer when the token lexes as one, text otherwise; a
/// positive EX argument sets the expiry to that many seconds past `now`,
/// and otherwise any old expiry is cleared.
pub fn set(store: &mut Store, cmd: &SetCmd, now: i64) -> (r: String)
    requires
        old(store).wf(),
        data_wf(cmd.arg_value),
    ensures
        final(store).wf(),
        r@ == simple_reply("OK"@),
        final(store).val(cmd.arg_key@) == Some(data_model(cmd.arg_value)),
        forall|k: Seq<char>| k != cmd.arg_key@ ==> final(store).val(k) == old(store).val(k),
        cmd.arg_exp > 0 && now + cmd.arg_exp <= i64::MAX ==> final(store).expiry(cmd.arg_key@)
            == Some((now + cmd.arg_exp) as i64),
        cmd.arg_exp == 0 ==> final(store).expiry(cmd.arg_key@) is None,
        forall|k: Seq<char>| k != cmd.arg_key@ ==> final(store).expiry(k) == old(store).expiry(k),
{
    let d = clone_data(&cmd.arg_value);
    store.put(cmd.arg_key.clone(), d);
    if cmd.arg_exp > 0 {
        if now <= i64::MAX - (cmd.arg_exp as i64) {
            store.set_expiry(cmd.arg_key.clone(), now + cmd.arg_exp as i64);
        } else {
            store.clear_expiry(cmd.arg_key.as_str());
        }
    } else {
        store.clear_expiry(cmd.arg_key.as_str());
    }
    crate::printer::print_ok()
}

/// A deep copy of a stored value.
pub fn clone_data(d: &Data) -> (r: Data)
    requires
        data_wf(*d),
    ensures
        data_model(r) == data_model(*d),
        data_wf(r),
{
    match *d {
        Data::String(ref s) => Data::String(s.clone()),
        Data::Int(i) => Data::Int(i),
        Data::Float(ref t) => Data::Float(t.clone()),
        Data::Json(ref j) => Data::Json(crate::json::clone_json(j)),
        Data::GeoTree(ref t) => Data::GeoTree(clone_geo(t)),
        Data::Null => Data::Null,
    }
}

/// A deep copy of a geo index.
pub fn clone_geo(t: &GeoTree) -> (r: GeoTree)
    requires
        t.wf(),
    ensures
        geo_members(r) == geo_members(*t),
        r.wf(),
{
    let mut out = GeoTree::new();
    let mut i: usize = 0;
    while i < t.points.len()
        invariant
            i <= t.points@.len(),
            out.wf(),
            t.wf(),
            out.spec_points().len() == i,
            forall|j: int|
                0 <= j < i ==> (#[trigger] out.spec_points()[j]).tag@ == t.spec_points()[j].tag@
                    && out.spec_points()[j].spec_x() == t.spec_points()[j].spec_x()
                    && out.spec_points()[j].spec_y() == t.spec_points()[j].spec_y(),
        decreases t.points@.len() - i,
    {
        proof {
            assert(t.spec_points()[i as int].wf());
        }
        let p = crate::geo::GeoPoint2D::with_cord(
            t.points[i].tag.clone(),
            t.points[i].x_cord(),
            t.points[i].y_cord(),
        );
        proof {
            assert forall|j: int|
                0 <= j < out.spec_points().len() implies (#[trigger] out.spec_points()[j]).tag@
                != p.tag@ by {
                assert(out.spec_points()[j].tag@ == t.spec_points()[j].tag@);
            }
            crate::geo::lemma_tag_index_is(
                out.spec_points(),
                p.tag@,
                out.spec_points().len() as int,
            );
        }
        out.insert(p);
        i = i + 1;
    }
    proof {
        assert(geo_members(out) =~= geo_members(*t));
    }
    out
}

/// GET: the typed reply for a live key; an expired key is reaped and, like
/// a missing one, reported as not found. A value is returned only when the
/// key has no expiry or its expiry lies past `now`.
pub fn get(store: &mut Store, cmd: &GetCmd, now: i64) -> (r: String)
    requires
        old(store).wf(),
    ensures
        final(store).wf(),
        old(store).live(cmd.arg_key@, now) ==> *final(store) == *old(store) && r@ == data_reply(
            old(store).val(cmd.arg_key@)->0,
        ) && (final(store).expiry(cmd.arg_key@) matches Some(e) ==> e > now),
        !old(store).live(cmd.arg_key@, now) ==> (r@ == error_reply("KEY_NOT_FOUND"@)
            && final(store).val(cmd.arg_key@) is None),
        forall|k: Seq<char>| k != cmd.arg_key@ ==> final(store).val(k) == old(store).val(k),
        forall|k: Seq<char>| k != cmd.arg_key@ ==> final(store).expiry(k) == old(store).expiry(k),
{
    let live = store.reap(cmd.arg_key.as_str(), now);
    if !live {
        return crate::printer::print_err("KEY_NOT_FOUND");
    }
    match store.find(cmd.arg_key.as_str()) {
        Some(i) => data_to_resp(&store.entries[i].1),
        None => unreached(),
    }
}

/// GETSET: atomically replaces a key's value, returning the old one or nil.
pub fn get_set(store: &mut Store, cmd: &GetSetCmd) -> (r: String)
    requires
        old(store).wf(),
        data_wf(cmd.arg_value),
    ensures
        final(store).wf(),
        final(store).val(cmd.arg_key@) == Some(data_model(cmd.arg_value)),
        forall|k: Seq<char>| k != cmd.arg_key@ ==> final(store).val(k) == old(store).val(k),
        old(store).val(cmd.arg_key@) matches Some(m) ==> r@ == data_reply(m),
        old(store).val(cmd.arg_key@) is None ==> r@ == simple_reply("nil"@),
{
    let reply = match store.find(cmd.arg_key.as_str()) {
        Some(i) => data_to_resp(&store.entries[i].1),
        None => crate::printer::print_str("nil"),
    };
    let d = clone_data(&cmd.arg_value);
    store.put(cmd.arg_key.clone(), d);
    reply
}

/// DEL: removes a key; 1 when it was present, 0 otherwise.
pub fn del(store: &mut Store, cmd: &DelCmd) -> (r: String)
    requires
        old(store).wf(),
    ensures
        final(store).wf(),
        final(store).val(cmd.arg_key@) is None,
        forall|k: Seq<char>| k != cmd.arg_key@ ==> final(store).val(k) == old(store).val(k),
        old(store).val(cmd.arg_key@) is Some ==> r@ == int_reply(1),
        old(store).val(cmd.arg_key@) is None ==> r@ == int_reply(0),
{
    let removed = store.remove_key(cmd.arg_key.as_str());
    store.clear_expiry(cmd.arg_key.as_str());
    if removed {
        crate::printer::print_integer(1)
    } else {
        crate::printer::print_integer(0)
    }
}

/// The number of the given keys live at `now`.
pub open spec fn live_count(s: Store, keys: Seq<Seq<char>>, now: i64) -> int
    decreases keys.len(),
{
    if keys.len() == 0 {
        0
    } else {
        live_count(s, keys.drop_last(), now) + (if s.live(keys.last(), now) {
            1int
        } else {
            0int
        })
    }
}

/// EXISTS: how many of the given keys are present and unexpired.
pub fn exists_cmd(store: &Store, cmd: &ExistsCmd, now: i64) -> (r: String)
    requires
        store.wf(),
        cmd.keys@.len() <= i64::MAX,
    ensures
        r@ == int_reply(live_count(*store, cmd.keys@.map_values(|s: String| s@), now)),
{
    let ghost ks = cmd.keys@.map_values(|s: String| s@);
    let mut found: i64 = 0;
    let mut i: usize = 0;
    while i < cmd.keys.len()
        invariant
            i <= cmd.keys@.len(),
            cmd.keys@.len() <= i64::MAX,
            store.wf(),
            ks == cmd.keys@.map_values(|s: String| s@),
            found == live_count(*store, ks.take(i as int), now),
            0 <= found <= i,
        decreases cmd.keys@.len() - i,
    {
        let present = match store.find(cmd.keys[i].as_str()) {
            Some(_) => true,
            None => false,
        };
        let live = if present {
            match store.find_ttl_pub(cmd.keys[i].as_str()) {
                Some(j) => store.ttl[j].1 > now,
                None => true,
            }
        } else {
            false
        };
        proof {
            assert(ks.take(i + 1).drop_last() =~= ks.take(i as int));
            assert(ks.take(i + 1).last() == ks[i as int]);
        }
        if live {
            found = found + 1;
        }
        i = i + 1;
    }
    proof {
        assert(ks.take(ks.len() as int) =~= ks);
    }
    crate::printer::print_integer(found)
}

/// What INCRBY leaves under the key and replies: a missing or null key is
/// promoted to the delta; an integer, a string that lexes as an integer, or
/// a decimal-text float is incremented; structured variants, non-numeric
/// strings, and out-of-range sums are refused with the store unchanged.
pub open spec fn incr_post(
    s0: Store,
    s1: Store,
    key: Seq<char>,
    delta: i64,
    r: Seq<char>,
) -> bool {
    let prior = s0.val(key);
    let base: Option<int> = match prior {
        None => Some(0),
        Some(DataModel::Null) => Some(0),
        Some(DataModel::Int(v)) => Some(v as int),
        Some(DataModel::Str(txt)) => if crate::util::spec_is_integer(
            vstd::utf8::encode_utf8(txt),
        ) {
            Some(crate::num::parse_i64(vstd::utf8::encode_utf8(txt))->0 as int)
        } else {
            None
        },
        _ => None,
    };
    match base {
        Some(b) => if i64::MIN <= b + delta <= i64::MAX {
            &&& s1.val(key) == Some(DataModel::Int((b + delta) as i64))
            &&& r == int_reply(b + delta)
            &&& forall|k: Seq<char>| k != key ==> s1.val(k) == s0.val(k)
            &&& s1.ttl@ == s0.ttl@
        } else {
            s1 == s0 && r == error_reply("ERR"@)
        },
        None => match prior {
            Some(DataModel::Float(lit)) => match crate::util::spec_scaled_e7(
                vstd::utf8::encode_utf8(lit),
            ) {
                Some(f) => if i64::MIN <= f + delta * 10000000 <= i64::MAX {
                    &&& s1.val(key) == Some(
                        DataModel::Float(crate::geo::fmt_e7((f + delta * 10000000) as i64)),
                    )
                    &&& r == bulk_reply(crate::geo::fmt_e7((f + delta * 10000000) as i64))
                    &&& forall|k: Seq<char>| k != key ==> s1.val(k) == s0.val(k)
                    &&& s1.ttl@ == s0.ttl@
                } else {
                    s1 == s0 && r == error_reply("ERR"@)
                },
                None => s1 == s0 && r == error_reply("ERR"@),
            },
            _ => s1 == s0 && r == error_reply("ERR"@),
        },
    }
}

/// INCRBY: atomic read-modify-write bound to the observed prior value.
pub fn incr_by(store: &mut Store, cmd: &IncrByCmd) -> (r: String)
    requires
        old(store).wf(),
    ensures
        final(store).wf(),
        incr_post(*old(store), *final(store), cmd.arg_key@, cmd.arg_value, r@),
{
    let base: i64 = match store.find(cmd.arg_key.as_str()) {
        Some(i) => match store.entries[i].1 {
            Data::Int(v) => v,
            Data::Null => 0,
            Data::String(ref txt) => {
                // a string that lexes as an integer is promoted numerically
                if crate::util::is_integer(txt) {
                    match crate::num::parse_i64_bytes(txt.as_str().as_bytes()) {
                        Some(v) => v,
                        None => {
                            return crate::printer::print_err("ERR");
                        },
                    }
                } else {
                    return crate::printer::print_err("ERR");
                }
            },
            Data::Float(ref lit) => {
                // a float increments at the decimal scale its text carries
                let f = match crate::util::parse_scaled_e7(lit) {
                    Some(f) => f,
                    None => {
                        return crate::printer::print_err("ERR");
                    },
                };
                let sum: i128 = (f as i128) + (cmd.arg_value as i128) * 10000000;
                if sum < i64::MIN as i128 || sum > i64::MAX as i128 {
                    return crate::printer::print_err("ERR");
                }
                let text = crate::geo::format_e7(sum as i64);
                let reply = crate::printer::print_string(&text);
                store.put(cmd.arg_key.clone(), Data::Float(text));
                return reply;
            },
            _ => {
                return crate::printer::print_err("ERR");
            },
        },
        None => 0,
    };
    if cmd.arg_value >= 0 {
        if base > i64::MAX - cmd.arg_value {
            return crate::printer::print_err("ERR");
        }
    } else {
        if base < i64::MIN - cmd.arg_value {
            return crate::printer::print_err("ERR");
        }
    }
    let newv = base + cmd.arg_value;
    store.put(cmd.arg_key.clone(), Data::Int(newv));
    crate::printer::print_integer(newv)
}

/// TTL: the seconds a live key still has, or -1 when it has no expiry or
/// the key is missing or expired.
pub fn ttl_cmd(store: &mut Store, cmd: &TTLCmd, now: i64) -> (r: String)
    requires
        old(store).wf(),
    ensures
        final(store).wf(),
        !old(store).live(cmd.arg_key@, now) ==> r@ == int_reply(-1),
        old(store).live(cmd.arg_key@, now) ==> r@ == (match old(store).expiry(cmd.arg_key@) {
            Some(e) => if e - now > i64::MAX {
                int_reply(i64::MAX as int)
            } else {
                int_reply(e - now)
            },
            None => int_reply(-1),
        }),
{
    let live = store.reap(cmd.arg_key.as_str(), now);
    if !live {
        return crate::printer::print_integer(-1);
    }
    match store.find_ttl_pub(cmd.arg_key.as_str()) {
        Some(i) => {
            let e = store.ttl[i].1;
            let rem128: i128 = (e as i128) - (now as i128);
            let rem: i64 = if rem128 > i64::MAX as i128 {
                i64::MAX
            } else {
                (e as i128 - now as i128) as i64
            };
            crate::printer::print_integer(rem)
        },
        None => crate::printer::print_integer(-1),
    }
}

/// EXPIRE: sets a live key's expiry `secs` past `now`; 1 on success, 0 for
/// a missing key.
pub fn expire(store: &mut Store, cmd: &ExpireCmd, now: i64) -> (r: String)
    requires
        old(store).wf(),
        cmd.arg_value >= 0,
    ensures
        final(store).wf(),
        !old(store).live(cmd.arg_key@, now) ==> r@ == int_reply(0),
        old(store).live(cmd.arg_key@, now) && now + cmd.arg_value <= i64::MAX ==> r@ == int_reply(
            1,
        ) && final(store).expiry(cmd.arg_key@) == Some((now + cmd.arg_value) as i64),
{
    let live = store.reap(cmd.arg_key.as_str(), now);
    if !live {
        return crate::printer::print_integer(0);
    }
    if now > i64::MAX - cmd.arg_value {
        return crate::printer::print_integer(0);
    }
    store.set_expiry(cmd.arg_key.clone(), now + cmd.arg_value);
    crate::printer::print_integer(1)
}

/// EXPIREAT: sets a live key's expiry to an absolute timestamp; 1 on
/// success, 0 for a missing key.
pub fn expire_at(store: &mut Store, cmd: &ExpireAtCmd, now: i64) -> (r: String)
    requires
        old(store).wf(),
    ensures
        final(store).wf(),
        !old(store).live(cmd.arg_key@, now) ==> r@ == int_reply(0),
        old(store).live(cmd.arg_key@, now) ==> r@ == int_reply(1) && final(store).expiry(
            cmd.arg_key@,
        ) == Some(cmd.arg_value),
{
    let live = store.reap(cmd.arg_key.as_str(), now);
    if !live {
        return crate::printer::print_integer(0);
    }
    store.set_expiry(cmd.arg_key.clone(), cmd.arg_value);
    crate::printer::print_integer(1)
}

/// PERSIST: drops a key's expiry; 1 when one was set, 0 otherwise.
pub fn persist(store: &mut Store, cmd: &PersistCmd) -> (r: String)
    requires
        old(store).wf(),
    ensures
        final(store).wf(),
        final(store).entries@ == old(store).entries@,
        final(store).expiry(cmd.arg_key@) is None,
        forall|k: Seq<char>| k != cmd.arg_key@ ==> final(store).expiry(k) == old(store).expiry(k),
        old(store).expiry(cmd.arg_key@) is Some ==> r@ == int_reply(1),
        old(store).expiry(cmd.arg_key@) is None ==> r@ == int_reply(0),
{
    let had = store.clear_expiry(cmd.arg_key.as_str());
    if had {
        crate::printer::print_integer(1)
    } else {
        crate::printer::print_integer(0)
    }
}

/// DBSIZE: the number of keys held.
pub fn db_size(store: &Store, _cmd: &DBSizeCmd) -> (r: String)
    requires
        store.entries@.len() <= i64::MAX,
    ensures
        r@ == int_reply(store.entries@.len() as int),
{
    crate::printer::print_integer(store.entries.len() as i64)
}

/// INFO: store statistics as a JSON text.
pub fn info(store: &Store, _cmd: &InfoCmd) -> (r: String)
    ensures
        r@ == bulk_reply(
            seq!['{', '"', 'k', 'e', 'y', 's', '"', ':'] + dec_chars(store.entries@.len())
                + seq!['}'],
        ),
{
    let mut text = String::new();
    crate::text::push_char(&mut text, '{');
    crate::text::push_char(&mut text, '"');
    crate::text::push_char(&mut text, 'k');
    crate::text::push_char(&mut text, 'e');
    crate::text::push_char(&mut text, 'y');
    crate::text::push_char(&mut text, 's');
    crate::text::push_char(&mut text, '"');
    crate::text::push_char(&mut text, ':');
    crate::text::push_u64_dec(&mut text, store.entries.len() as u64);
    crate::text::push_char(&mut text, '}');
    proof {
        assert(text@ =~= seq!['{', '"', 'k', 'e', 'y', 's', '"', ':'] + dec_chars(
            store.entries@.len(),
        ) + seq!['}']);
    }
    print_string(&text)
}

/// Reaps every expired key: afterwards no key carries an expiry at or
/// before `now`.
pub fn sweep_expired(store: &mut Store, now: i64)
    requires
        old(store).wf(),
    ensures
        final(store).wf(),
        forall|k: Seq<char>| final(store).live(k, now) ==> old(store).live(k, now),
        forall|k: Seq<char>|
            old(store).live(k, now) ==> (final(store).val(k) == old(store).val(k)
                && final(store).expiry(k) == old(store).expiry(k)),
{
    let mut i: usize = 0;
    while i < store.ttl.len()
        invariant
            store.wf(),
            i <= store.ttl@.len(),
            forall|k: Seq<char>| store.live(k, now) ==> old(store).live(k, now),
            forall|k: Seq<char>|
                old(store).live(k, now) ==> store.val(k) == old(store).val(k) && store.expiry(k)
                    == old(store).expiry(k),
        decreases store.ttl@.len() - i,
    {
        if store.ttl[i].1 <= now {
            let ghost pre_len = store.ttl@.len();
            let key = store.ttl[i].0.clone();
            proof {
                assert(key@ == store.ttl@[i as int].0@);
                assert forall|j: int| 0 <= j < i implies (#[trigger] store.ttl@[j]).0@ != key@ by {
                    assert(store.ttl@[j].0@ != store.ttl@[i as int].0@);
                }
                lemma_kidx_is(store.ttl@, key@, i as int);
                assert(khas(store.ttl@, key@));
                assert(store.expiry(key@) == Some(store.ttl@[i as int].1));
                assert(!store.live(key@, now));
            }
            store.remove_key(key.as_str());
            proof {
                assert(khas(store.ttl@, key@));
            }
            store.clear_expiry(key.as_str());
            proof {
                assert(store.ttl@.len() == pre_len - 1);
            }
        } else {
            i = i + 1;
        }
    }
}

#[verifier::external_type_specification]
#[verifier::external_body]
pub struct ExPattern(glob::Pattern);

/// Whether a glob pattern compiles.
pub uninterp spec fn glob_valid(p: Seq<char>) -> bool;

/// The pattern text a compiled pattern was built from.
pub uninterp spec fn pattern_src(p: glob::Pattern) -> Seq<char>;

/// Whether a pattern matches a name: a function of the two texts alone.
pub uninterp spec fn glob_matches(p: Seq<char>, s: Seq<char>) -> bool;

/// Relies on glob::Pattern::new: compiles exactly the well-formed patterns.
#[verifier::external_body]
fn glob_new(p: &str) -> (r: Option<glob::Pattern>)
    ensures
        r is Some <==> glob_valid(p@),
        r matches Some(pat) ==> pattern_src(pat) == p@,
{
    match glob::Pattern::new(p) {
        Ok(pat) => Some(pat),
        Err(_) => None,
    }
}

/// Relies on glob::Pattern::matches: whether the pattern matches the name.
#[verifier::external_body]
fn glob_match_exec(pat: &glob::Pattern, s: &str) -> (r: bool)
    ensures
        r == glob_matches(pattern_src(*pat), s@),
{
    pat.matches(s)
}

/// The longest literal prefix of a pattern: everything before the first
/// wildcard.
pub open spec fn glob_prefix(p: Seq<char>) -> Seq<char>
    decreases p.len(),
{
    if p.len() == 0 {
        Seq::empty()
    } else if p[0] == '*' || p[0] == '?' || p[0] == '[' {
        Seq::empty()
    } else {
        seq![p[0]] + glob_prefix(p.drop_first())
    }
}

fn glob_prefix_exec(p: &str) -> (r: String)
    ensures
        r@ == glob_prefix(p@),
{
    let n = p.unicode_len();
    let mut out = String::new();
    let mut i: usize = 0;
    proof {
        assert(p@.skip(0) =~= p@);
        assert(out@ + glob_prefix(p@) =~= glob_prefix(p@));
    }
    while i < n
        invariant
            i <= n,
            n == p@.len(),
            glob_prefix(p@) == out@ + glob_prefix(p@.skip(i as int)),
            out@.len() == i,
            forall|j: int| 0 <= j < i ==> out@[j] == p@[j],
        decreases n - i,
    {
        let c = p.get_char(i);
        if c == '*' || c == '?' || c == '[' {
            proof {
                assert(p@.skip(i as int)[0] == c);
                assert(glob_prefix(p@.skip(i as int)) =~= Seq::<char>::empty());
                assert(glob_prefix(p@) =~= out@);
            }
            return out;
        }
        let ghost pre = out@;
        crate::text::push_char(&mut out, c);
        proof {
            let rest = p@.skip(i as int);
            assert(rest[0] == c);
            assert(rest.drop_first() =~= p@.skip(i + 1));
            assert(glob_prefix(rest) == seq![c] + glob_prefix(p@.skip(i + 1)));
            assert(pre + glob_prefix(rest) =~= out@ + glob_prefix(p@.skip(i + 1)));
        }
        i = i + 1;
    }
    proof {
        assert(p@.skip(n as int) =~= Seq::<char>::empty());
        assert(glob_prefix(p@.skip(n as int)) =~= Seq::<char>::empty());
        assert(glob_prefix(p@) =~= out@);
    }
    out
}

/// The keys of the entries that carry the pattern's literal prefix and
/// match the whole pattern, in storage order.
pub open spec fn matched_keys(es: Seq<(String, Data)>, pat: Seq<char>) -> Seq<Seq<char>>
    decreases es.len(),
{
    if es.len() == 0 {
        Seq::empty()
    } else {
        (if crate::utils::spec_starts_with(es[0].0@, glob_prefix(pat)) && glob_matches(
            pat,
            es[0].0@,
        ) {
            seq![es[0].0@]
        } else {
            Seq::<Seq<char>>::empty()
        }) + matched_keys(es.drop_first(), pat)
    }
}

proof fn lemma_matched_keys_snoc(es: Seq<(String, Data)>, pat: Seq<char>, i: int)
    requires
        0 <= i < es.len(),
    ensures
        matched_keys(es.take(i + 1), pat) == matched_keys(es.take(i), pat) + (
        if crate::utils::spec_starts_with(es[i].0@, glob_prefix(pat)) && glob_matches(
            pat,
            es[i].0@,
        ) {
            seq![es[i].0@]
        } else {
            Seq::<Seq<char>>::empty()
        }),
    decreases i,
{
    if i == 0 {
        assert(es.take(1).drop_first() =~= Seq::<(String, Data)>::empty());
        assert(es.take(0) =~= Seq::<(String, Data)>::empty());
        assert(matched_keys(es.take(1), pat) =~= matched_keys(es.take(0), pat) + (
        if crate::utils::spec_starts_with(es[0].0@, glob_prefix(pat)) && glob_matches(
            pat,
            es[0].0@,
        ) {
            seq![es[0].0@]
        } else {
            Seq::<Seq<char>>::empty()
        }));
    } else {
        lemma_matched_keys_snoc(es.drop_first(), pat, i - 1);
        assert(es.take(i + 1).drop_first() =~= es.drop_first().take(i));
        assert(es.take(i).drop_first() =~= es.drop_first().take(i - 1));
        assert(es.drop_first().take(i - 1 + 1) == es.drop_first().take(i));
        assert(es.drop_first()[i - 1] == es[i]);
        assert(es.take(i + 1)[0] == es[0]);
        assert(es.take(i)[0] == es[0]);
        assert(matched_keys(es.take(i + 1), pat) =~= matched_keys(es.take(i), pat) + (
        if crate::utils::spec_starts_with(es[i].0@, glob_prefix(pat)) && glob_matches(
            pat,
            es[i].0@,
        ) {
            seq![es[i].0@]
        } else {
            Seq::<Seq<char>>::empty()
        }));
    }
}

/// KEYS: all keys carrying the pattern's literal prefix that match the full
/// glob, in storage order; an ill-formed pattern is refused.
pub fn keys(store: &Store, cmd: &KeysCmd) -> (r: String)
    ensures
        !glob_valid(cmd.pattern@) ==> r@ == error_reply("ERR invalid pattern"@),
        glob_valid(cmd.pattern@) ==> r@ == crate::printer::arr_reply(
            matched_keys(store.entries@, cmd.pattern@),
        ),
{
    let pat = match glob_new(cmd.pattern.as_str()) {
        Some(p) => p,
        None => {
            return crate::printer::print_err("ERR invalid pattern");
        },
    };
    let prefix = glob_prefix_exec(cmd.pattern.as_str());
    let ghost es = store.entries@;
    let mut out: Vec<String> = Vec::new();
    let mut i: usize = 0;
    while i < store.entries.len()
        invariant
            i <= es.len(),
            es == store.entries@,
            pattern_src(pat) == cmd.pattern@,
            prefix@ == glob_prefix(cmd.pattern@),
            out@.map_values(|s: String| s@) == matched_keys(es.take(i as int), cmd.pattern@),
        decreases es.len() - i,
    {
        let key = &store.entries[i].0;
        let hit = crate::utils::starts_with_str(key.as_str(), prefix.as_str()) && glob_match_exec(
            &pat,
            key.as_str(),
        );
        proof {
            lemma_matched_keys_snoc(es, cmd.pattern@, i as int);
        }
        if hit {
            let ghost pre = out@.map_values(|s: String| s@);
            out.push(key.clone());
            proof {
                assert(out@.map_values(|s: String| s@) =~= pre.push(out@.last()@));
                assert(out@.map_values(|s: String| s@) =~= matched_keys(
                    es.take(i + 1),
                    cmd.pattern@,
                ));
            }
        } else {
            proof {
                assert(out@.map_values(|s: String| s@) =~= matched_keys(
                    es.take(i + 1),
                    cmd.pattern@,
                ));
            }
        }
        i = i + 1;
    }
    proof {
        assert(es.take(es.len() as int) =~= es);
    }
    crate::printer::print_arr(out)
}

/// A character of the alphanumeric alphabet.
pub open spec fn is_alnum_char(c: char) -> bool {
    ||| '0' <= c <= '9'
    ||| 'a' <= c <= 'z'
    ||| 'A' <= c <= 'Z'
}

/// Relies on nanoid::format with its default random source: draws `size`
/// characters from the given alphabet. Nothing is assumed of which
/// characters come out.
#[verifier::external_body]
fn nanoid_format(alphabet: &Vec<char>, size: usize) -> (r: String)
    requires
        1 <= size,
        1 <= alphabet@.len() <= 255,
        forall|i: int| 0 <= i < alphabet@.len() ==> ((#[trigger] alphabet@[i]) as u32) < 128,
    ensures
        r@.len() == size,
        forall|i: int|
            0 <= i < r@.len() ==> exists|j: int|
                0 <= j < alphabet@.len() && #[trigger] r@[i] == alphabet@[j],
{
    nanoid::format(nanoid::rngs::default, alphabet.as_slice(), size)
}

/// RANDOMKEY: a fresh 25-character name from the alphanumeric alphabet.
pub fn random_key(_cmd: &RandomKeyCmd) -> (r: String)
    ensures
        exists|k: Seq<char>|
            r@ == bulk_reply(k) && k.len() == 25 && (forall|i: int|
                0 <= i < k.len() ==> is_alnum_char(#[trigger] k[i])),
{
    let mut alphabet: Vec<char> = Vec::new();
    let mut b: u8 = 48;
    while b <= 57
        invariant
            48 <= b <= 58,
            alphabet@.len() == b - 48,
            forall|i: int|
                0 <= i < alphabet@.len() ==> is_alnum_char(#[trigger] alphabet@[i])
                    && (alphabet@[i] as u32) < 128,
        decreases 58 - b,
    {
        alphabet.push(b as char);
        b = b + 1;
    }
    let mut c: u8 = 97;
    while c <= 122
        invariant
            97 <= c <= 123,
            alphabet@.len() == 10 + c - 97,
            forall|i: int|
                0 <= i < alphabet@.len() ==> is_alnum_char(#[trigger] alphabet@[i])
                    && (alphabet@[i] as u32) < 128,
        decreases 123 - c,
    {
        alphabet.push(c as char);
        c = c + 1;
    }
    let mut d: u8 = 65;
    while d <= 90
        invariant
            65 <= d <= 91,
            alphabet@.len() == 36 + d - 65,
            forall|i: int|
                0 <= i < alphabet@.len() ==> is_alnum_char(#[trigger] alphabet@[i])
                    && (alphabet@[i] as u32) < 128,
        decreases 91 - d,
    {
        alphabet.push(d as char);
        d = d + 1;
    }
    let key = nanoid_format(&alphabet, 25);
    let reply = crate::printer::print_string(&key);
    proof {
        assert forall|i: int| 0 <= i < key@.len() implies is_alnum_char(#[trigger] key@[i]) by {
            let j = choose|j: int| 0 <= j < alphabet@.len() && key@[i] == alphabet@[j];
        }
    }
    reply
}

impl Store {
    /// Takes a key's value out of the store.
    pub fn take(&mut self, key: &str) -> (r: Option<Data>)
        requires
            old(self).wf(),
        ensures
            final(self).wf(),
            final(self).val(key@) is None,
            forall|k: Seq<char>| k != key@ ==> final(self).val(k) == old(self).val(k),
            final(self).ttl@ == old(self).ttl@,
            old(self).val(key@) matches Some(m) ==> (r matches Some(d) && data_model(d) == m
                && data_wf(d)),
            old(self).val(key@) is None ==> r is None && *final(self) == *old(self),
    {
        let ghost es0 = self.entries@;
        proof {
            lemma_kidx(es0, key@);
        }
        match self.find(key) {
            Some(i) => {
                let (_k, d) = self.entries.remove(i);
                proof {
                    lemma_store_remove(es0, self.entries@, i as int, key@);
                }
                Some(d)
            },
            None => None,
        }
    }
}

/// The reply and store change of a JSETR: replace the whole document.
pub fn jset_raw(store: &mut Store, cmd: &JSetRawCmd) -> (r: String)
    requires
        old(store).wf(),
    ensures
        final(store).wf(),
        ({
            let doc = crate::json::spec_json_doc(
                vstd::utf8::encode_utf8(cmd.arg_value@),
            );
            match doc {
                Some(m) => {
                    &&& r@ == simple_reply("OK"@)
                    &&& final(store).val(cmd.arg_key@) == Some(DataModel::Json(m))
                    &&& forall|k: Seq<char>|
                        k != cmd.arg_key@ ==> final(store).val(k) == old(store).val(k)
                },
                None => r@ == error_reply("ERR invalid json"@) && *final(store) == *old(store),
            }
        }),
{
    let parsed = match crate::json::parse_json(cmd.arg_value.as_str().as_bytes()) {
        Some(j) => j,
        None => {
            return crate::printer::print_err("ERR invalid json");
        },
    };
    store.put(cmd.arg_key.clone(), Data::Json(parsed));
    crate::printer::print_ok()
}

/// The document after every dot-path write, or nothing when any write
/// fails: writes apply atomically.
pub open spec fn jset_all(m: JsonModel, items: Seq<(Seq<char>, JsonModel)>, d: char) -> Option<
    JsonModel,
>
    decreases items.len(),
{
    if items.len() == 0 {
        Some(m)
    } else {
        match crate::json::jset_path(
            m,
            crate::json::spec_split(items[0].0, d),
            items[0].1,
        ) {
            Some(m2) => jset_all(m2, items.drop_first(), d),
            None => None,
        }
    }
}

/// JSET: dot-path writes applied atomically to the key's document (a
/// missing key starts from null); on any failure nothing changes.
pub fn jset(store: &mut Store, cmd: &JSetCmd) -> (r: String)
    requires
        old(store).wf(),
    ensures
        final(store).wf(),
        ({
            let prior = match old(store).val(cmd.arg_key@) {
                Some(DataModel::Json(m)) => Some(m),
                None => Some(JsonModel::Null),
                _ => None,
            };
            match prior {
                Some(m0) => match jset_all(
                    m0,
                    crate::command::jset_items_model(cmd.arg_set_items@),
                    '.',
                ) {
                    Some(m2) => {
                        &&& r@ == simple_reply("OK"@)
                        &&& final(store).val(cmd.arg_key@) == Some(DataModel::Json(m2))
                        &&& forall|k: Seq<char>|
                            k != cmd.arg_key@ ==> final(store).val(k) == old(store).val(k)
                    },
                    None => r@ == error_reply("ERR"@) && *final(store) == *old(store),
                },
                None => r@ == error_reply("ERR Invalid key for data type"@) && *final(store)
                    == *old(store),
            }
        }),
{
    let mut doc: Json = match store.find(cmd.arg_key.as_str()) {
        Some(i) => match store.entries[i].1 {
            Data::Json(ref j) => crate::json::clone_json(j),
            _ => {
                return crate::printer::print_err("ERR Invalid key for data type");
            },
        },
        None => Json::Null,
    };
    let ghost items = crate::command::jset_items_model(cmd.arg_set_items@);
    let ghost m0 = crate::json::jmodel(doc);
    let mut i: usize = 0;
    proof {
        assert(items.skip(0) =~= items);
    }
    while i < cmd.arg_set_items.len()
        invariant
            i <= cmd.arg_set_items@.len(),
            items == crate::command::jset_items_model(cmd.arg_set_items@),
            items.len() == cmd.arg_set_items@.len(),
            *store == *old(store),
            store.wf(),
            (match old(store).val(cmd.arg_key@) {
                Some(DataModel::Json(m)) => m0 == m,
                None => m0 == JsonModel::Null,
                _ => false,
            }),
            jset_all(m0, items, '.') == jset_all(
                crate::json::jmodel(doc),
                items.skip(i as int),
                '.',
            ),
        decreases cmd.arg_set_items@.len() - i,
    {
        let segs = crate::json::split_str(cmd.arg_set_items[i].0.as_str(), '.');
        let v = crate::json::clone_json(&cmd.arg_set_items[i].1);
        proof {
            assert(items[i as int] == (cmd.arg_set_items@[i as int].0@, crate::json::jmodel(
                cmd.arg_set_items@[i as int].1,
            )));
            assert(crate::json::seg_views(segs@).skip(0) =~= crate::json::spec_split(
                items[i as int].0,
                '.',
            ));
            assert(items.skip(i as int)[0] == items[i as int]);
            assert(items.skip(i as int).drop_first() =~= items.skip(i + 1));
        }
        match crate::json::json_set_path(doc, &segs, 0, v) {
            Some(d2) => {
                doc = d2;
            },
            None => {
                return crate::printer::print_err("ERR");
            },
        }
        i = i + 1;
    }
    proof {
        assert(items.skip(items.len() as int) =~= Seq::<(Seq<char>, JsonModel)>::empty());
    }
    store.put(cmd.arg_key.clone(), Data::Json(doc));
    crate::printer::print_ok()
}

/// JGET: the document, or the value a dot path addresses; strings and
/// number literals come back bare, anything else serialized.
pub fn jget(store: &Store, cmd: &JGetCmd) -> (r: String)
    requires
        store.wf(),
    ensures
        ({
            match store.val(cmd.arg_key@) {
                Some(DataModel::Json(m)) => match cmd.arg_dot_path {
                    Some(p) => {
                        let got = match crate::json::jget_path(
                            m,
                            crate::json::spec_split(p@, '.'),
                        ) {
                            Some(v) => v,
                            None => JsonModel::Null,
                        };
                        r@ == (match got {
                            JsonModel::Str(s) => bulk_reply(s),
                            JsonModel::Num(n) => bulk_reply(n),
                            other => bulk_reply(jser(other)),
                        })
                    },
                    None => r@ == bulk_reply(jser(m)),
                },
                Some(_) => r@ == error_reply("ERR Invalid key for data type"@),
                None => r@ == error_reply("KEY_NOT_FOUND"@),
            }
        }),
{
    let i = match store.find(cmd.arg_key.as_str()) {
        Some(i) => i,
        None => {
            return crate::printer::print_err("KEY_NOT_FOUND");
        },
    };
    let doc = match store.entries[i].1 {
        Data::Json(ref j) => j,
        _ => {
            return crate::printer::print_err("ERR Invalid key for data type");
        },
    };
    match cmd.arg_dot_path {
        Some(ref p) => {
            let segs = crate::json::split_str(p.as_str(), '.');
            proof {
                assert(crate::json::seg_views(segs@).skip(0) =~= crate::json::spec_split(
                    p@,
                    '.',
                ));
            }
            match crate::json::json_get_path(doc, &segs, 0) {
                Some(v) => match *v {
                    Json::Str(ref s) => print_string(s),
                    Json::Num(ref n) => print_string(n),
                    _ => {
                        let text = crate::json::json_to_string(v);
                        print_string(&text)
                    },
                },
                None => {
                    let text = crate::json::json_to_string(&Json::Null);
                    print_string(&text)
                },
            }
        },
        None => {
            let text = crate::json::json_to_string(doc);
            print_string(&text)
        },
    }
}

/// JMERGE: recursively merges the given document over the stored one; a
/// missing key stores the given document.
pub fn jmerge(store: &mut Store, cmd: &JMergeCmd) -> (r: String)
    requires
        old(store).wf(),
    ensures
        final(store).wf(),
        ({
            let parsed = crate::json::spec_json_doc(vstd::utf8::encode_utf8(cmd.arg_value@));
            match parsed {
                Some(b) => match old(store).val(cmd.arg_key@) {
                    Some(DataModel::Json(a)) => {
                        &&& r@ == simple_reply("OK"@)
                        &&& final(store).val(cmd.arg_key@) == Some(
                            DataModel::Json(crate::json::jmerge_model(a, b)),
                        )
                        &&& forall|k: Seq<char>|
                            k != cmd.arg_key@ ==> final(store).val(k) == old(store).val(k)
                    },
                    None | Some(DataModel::Null) => {
                        &&& r@ == simple_reply("OK"@)
                        &&& final(store).val(cmd.arg_key@) == Some(DataModel::Json(b))
                        &&& forall|k: Seq<char>|
                            k != cmd.arg_key@ ==> final(store).val(k) == old(store).val(k)
                    },
                    Some(_) => r@ == error_reply("ERR Invalid key for data type"@) && *final(store)
                        == *old(store),
                },
                None => r@ == error_reply("ERR invalid json"@) && *final(store) == *old(store),
            }
        }),
{
    let parsed = match crate::json::parse_json(cmd.arg_value.as_str().as_bytes()) {
        Some(j) => j,
        None => {
            return crate::printer::print_err("ERR invalid json");
        },
    };
    let merged: Json = match store.find(cmd.arg_key.as_str()) {
        Some(i) => match store.entries[i].1 {
            Data::Json(ref a) => {
                let ac = crate::json::clone_json(a);
                crate::json::deep_merge(ac, &parsed)
            },
            Data::Null => parsed,
            _ => {
                return crate::printer::print_err("ERR Invalid key for data type");
            },
        },
        None => parsed,
    };
    store.put(cmd.arg_key.clone(), Data::Json(merged));
    crate::printer::print_ok()
}

/// JDEL: removes a JSON key; other variants are refused.
pub fn jdel(store: &mut Store, cmd: &JDelCmd) -> (r: String)
    requires
        old(store).wf(),
    ensures
        final(store).wf(),
        match old(store).val(cmd.arg_key@) {
            Some(DataModel::Json(_)) => r@ == int_reply(1) && final(store).val(
                cmd.arg_key@,
            ) is None && forall|k: Seq<char>|
                k != cmd.arg_key@ ==> final(store).val(k) == old(store).val(k),
            Some(_) => r@ == error_reply("ERR Invalid key for data type"@) && *final(store)
                == *old(store),
            None => r@ == error_reply("KEY_NOT_FOUND"@) && *final(store) == *old(store),
        },
{
    let i = match store.find(cmd.arg_key.as_str()) {
        Some(i) => i,
        None => {
            return crate::printer::print_err("KEY_NOT_FOUND");
        },
    };
    match store.entries[i].1 {
        Data::Json(_) => {},
        _ => {
            return crate::printer::print_err("ERR Invalid key for data type");
        },
    }
    store.remove_key(cmd.arg_key.as_str());
    crate::printer::print_integer(1)
}

/// The document and removal count after a sequence of dot-path removals:
/// a path that addresses nothing is skipped.
pub open spec fn jrem_all(m: JsonModel, paths: Seq<Seq<char>>, d: char) -> (JsonModel, int)
    decreases paths.len(),
{
    if paths.len() == 0 {
        (m, 0)
    } else {
        let step = match crate::json::jrem_path(m, crate::json::spec_split(paths[0], d)) {
            Some(m2) => (m2, 1int),
            None => (m, 0int),
        };
        let rest = jrem_all(step.0, paths.drop_first(), d);
        (rest.0, step.1 + rest.1)
    }
}

/// JREM: removes the addressed members, counting the paths that removed
/// something; a missing key works on a null document.
pub fn jrem(store: &mut Store, cmd: &JRemCmd) -> (r: String)
    requires
        old(store).wf(),
        cmd.arg_paths@.len() <= i64::MAX,
    ensures
        final(store).wf(),
        ({
            let prior = match old(store).val(cmd.arg_key@) {
                Some(DataModel::Json(m)) => Some(m),
                None => Some(JsonModel::Null),
                _ => None,
            };
            match prior {
                Some(m0) => {
                    let out = jrem_all(m0, cmd.arg_paths@.map_values(|s: String| s@), '.');
                    &&& r@ == int_reply(out.1)
                    &&& final(store).val(cmd.arg_key@) == Some(DataModel::Json(out.0))
                    &&& forall|k: Seq<char>|
                        k != cmd.arg_key@ ==> final(store).val(k) == old(store).val(k)
                },
                None => r@ == error_reply("ERR Invalid key for data type"@) && *final(store)
                    == *old(store),
            }
        }),
{
    let mut doc: Json = match store.find(cmd.arg_key.as_str()) {
        Some(i) => match store.entries[i].1 {
            Data::Json(ref j) => crate::json::clone_json(j),
            _ => {
                return crate::printer::print_err("ERR Invalid key for data type");
            },
        },
        None => Json::Null,
    };
    let ghost paths = cmd.arg_paths@.map_values(|s: String| s@);
    let ghost m0 = crate::json::jmodel(doc);
    let mut count: i64 = 0;
    let mut i: usize = 0;
    proof {
        assert(paths.skip(0) =~= paths);
    }
    while i < cmd.arg_paths.len()
        invariant
            i <= cmd.arg_paths@.len(),
            cmd.arg_paths@.len() <= i64::MAX,
            paths == cmd.arg_paths@.map_values(|s: String| s@),
            0 <= count <= i,
            jrem_all(m0, paths, '.').0 == jrem_all(
                crate::json::jmodel(doc),
                paths.skip(i as int),
                '.',
            ).0,
            jrem_all(m0, paths, '.').1 == count + jrem_all(
                crate::json::jmodel(doc),
                paths.skip(i as int),
                '.',
            ).1,
        decreases cmd.arg_paths@.len() - i,
    {
        let segs = crate::json::split_str(cmd.arg_paths[i].as_str(), '.');
        proof {
            assert(crate::json::seg_views(segs@).skip(0) =~= crate::json::spec_split(
                paths[i as int],
                '.',
            ));
            assert(paths.skip(i as int)[0] == paths[i as int]);
            assert(paths.skip(i as int).drop_first() =~= paths.skip(i + 1));
        }
        let taken = crate::json::clone_json(&doc);
        match crate::json::json_rem_path(taken, &segs, 0) {
            Some(d2) => {
                doc = d2;
                count = count + 1;
            },
            None => {},
        }
        i = i + 1;
    }
    proof {
        assert(paths.skip(paths.len() as int) =~= Seq::<Seq<char>>::empty());
    }
    store.put(cmd.arg_key.clone(), Data::Json(doc));
    crate::printer::print_integer(count)
}

/// What JINCRBY leaves and replies: an integer literal at the path is
/// summed with the delta; a missing or null position is set to the delta;
/// a non-integer position leaves the document as it stands and reports
/// zero; overflow and unwritable paths are refused with nothing changed.
pub open spec fn jincr_post(
    s0: Store,
    s1: Store,
    key: Seq<char>,
    path: Seq<char>,
    delta: i64,
    r: Seq<char>,
) -> bool {
    let prior: Option<JsonModel> = match s0.val(key) {
        Some(DataModel::Json(m)) => Some(m),
        None => Some(JsonModel::Null),
        _ => None,
    };
    match prior {
        Some(m0) => {
            let segs = crate::json::spec_split(path, '.');
            let base: Option<Option<int>> = match crate::json::jget_path(m0, segs) {
                Some(JsonModel::Num(lit)) => match crate::num::parse_i64(
                    vstd::utf8::encode_utf8(lit),
                ) {
                    Some(b) => Some(Some(b as int)),
                    None => None,
                },
                Some(JsonModel::Null) => Some(None),
                None => Some(None),
                Some(_) => None,
            };
            match base {
                Some(b_opt) => {
                    let b: int = match b_opt {
                        Some(b) => b,
                        None => 0,
                    };
                    if i64::MIN <= b + delta <= i64::MAX {
                        match crate::json::jset_path(
                            m0,
                            segs,
                            JsonModel::Num(crate::text::dec_chars_i64(b + delta)),
                        ) {
                            Some(m2) => {
                                &&& s1.val(key) == Some(DataModel::Json(m2))
                                &&& r == int_reply(b + delta)
                                &&& forall|k: Seq<char>| k != key ==> s1.val(k) == s0.val(k)
                                &&& s1.ttl@ == s0.ttl@
                            },
                            None => s1 == s0 && r == error_reply("ERR"@),
                        }
                    } else {
                        s1 == s0 && r == error_reply("ERR"@)
                    }
                },
                None => {
                    &&& s1.val(key) == Some(DataModel::Json(m0))
                    &&& r == int_reply(0)
                    &&& forall|k: Seq<char>| k != key ==> s1.val(k) == s0.val(k)
                    &&& s1.ttl@ == s0.ttl@
                },
            }
        },
        None => s1 == s0 && r == int_reply(0),
    }
}

/// JINCRBY: atomic integer mutation at a JSON position.
pub fn jincr_by(store: &mut Store, cmd: &JIncrByCmd) -> (r: String)
    requires
        old(store).wf(),
    ensures
        final(store).wf(),
        jincr_post(
            *old(store),
            *final(store),
            cmd.arg_key@,
            cmd.arg_path@,
            cmd.arg_increment_value,
            r@,
        ),
{
    let doc: Json = match store.find(cmd.arg_key.as_str()) {
        Some(i) => match store.entries[i].1 {
            Data::Json(ref j) => crate::json::clone_json(j),
            _ => {
                return crate::printer::print_integer(0);
            },
        },
        None => Json::Null,
    };
    let segs = crate::json::split_str(cmd.arg_path.as_str(), '.');
    proof {
        assert(crate::json::seg_views(segs@).skip(0) =~= crate::json::spec_split(
            cmd.arg_path@,
            '.',
        ));
    }
    let current: Option<i64> = match crate::json::json_get_path(&doc, &segs, 0) {
        Some(v) => match *v {
            Json::Num(ref lit) => match crate::num::parse_i64_bytes(lit.as_str().as_bytes()) {
                Some(n) => Some(n),
                None => {
                    store.put(cmd.arg_key.clone(), Data::Json(doc));
                    return crate::printer::print_integer(0);
                },
            },
            Json::Null => None,
            _ => {
                store.put(cmd.arg_key.clone(), Data::Json(doc));
                return crate::printer::print_integer(0);
            },
        },
        None => None,
    };
    let base: i64 = match current {
        Some(b) => b,
        None => 0,
    };
    if cmd.arg_increment_value >= 0 {
        if base > i64::MAX - cmd.arg_increment_value {
            return crate::printer::print_err("ERR");
        }
    } else {
        if base < i64::MIN - cmd.arg_increment_value {
            return crate::printer::print_err("ERR");
        }
    }
    let newv = base + cmd.arg_increment_value;
    let mut lit = String::new();
    crate::text::push_i64_dec(&mut lit, newv);
    proof {
        assert(lit@ =~= crate::text::dec_chars_i64(newv as int));
    }
    match crate::json::json_set_path(doc, &segs, 0, Json::Num(lit)) {
        Some(d2) => {
            store.put(cmd.arg_key.clone(), Data::Json(d2));
            crate::printer::print_integer(newv)
        },
        None => crate::printer::print_err("ERR"),
    }
}

/// What JINCRBYFLOAT leaves and replies, at a scale of ten-millionths: a
/// decimal literal at the path is summed exactly with the increment; a
/// missing or null position is set to the increment; a position that is no
/// such literal leaves the document and reports zero; overflow and
/// unwritable paths are refused with nothing changed.
pub open spec fn jincrf_post(
    s0: Store,
    s1: Store,
    key: Seq<char>,
    path: Seq<char>,
    delta_lit: Seq<char>,
    r: Seq<char>,
) -> bool {
    match crate::util::spec_scaled_e7(vstd::utf8::encode_utf8(delta_lit)) {
        None => s1 == s0 && r == error_reply("ERR"@),
        Some(delta) => {
            let prior: Option<JsonModel> = match s0.val(key) {
                Some(DataModel::Json(m)) => Some(m),
                None => Some(JsonModel::Null),
                _ => None,
            };
            match prior {
                Some(m0) => {
                    let segs = crate::json::spec_split(path, '.');
                    let base: Option<Option<int>> = match crate::json::jget_path(m0, segs) {
                        Some(JsonModel::Num(lit)) => match crate::util::spec_scaled_e7(
                            vstd::utf8::encode_utf8(lit),
                        ) {
                            Some(b) => Some(Some(b as int)),
                            None => None,
                        },
                        Some(JsonModel::Null) => Some(None),
                        None => Some(None),
                        Some(_) => None,
                    };
                    match base {
                        Some(b_opt) => {
                            let b: int = match b_opt {
                                Some(b) => b,
                                None => 0,
                            };
                            if i64::MIN <= b + delta <= i64::MAX {
                                match crate::json::jset_path(
                                    m0,
                                    segs,
                                    JsonModel::Num(crate::geo::fmt_e7((b + delta) as i64)),
                                ) {
                                    Some(m2) => {
                                        &&& s1.val(key) == Some(DataModel::Json(m2))
                                        &&& r == bulk_reply(
                                            crate::geo::fmt_e7((b + delta) as i64),
                                        )
                                        &&& forall|k: Seq<char>|
                                            k != key ==> s1.val(k) == s0.val(k)
                                        &&& s1.ttl@ == s0.ttl@
                                    },
                                    None => s1 == s0 && r == error_reply("ERR"@),
                                }
                            } else {
                                s1 == s0 && r == error_reply("ERR"@)
                            }
                        },
                        None => {
                            &&& s1.val(key) == Some(DataModel::Json(m0))
                            &&& r == bulk_reply(crate::geo::fmt_e7(0))
                            &&& forall|k: Seq<char>| k != key ==> s1.val(k) == s0.val(k)
                            &&& s1.ttl@ == s0.ttl@
                        },
                    }
                },
                None => s1 == s0 && r == bulk_reply(crate::geo::fmt_e7(0)),
            }
        },
    }
}

/// JINCRBYFLOAT: atomic decimal mutation at a JSON position, exact at a
/// scale of ten-millionths; finer or out-of-range literals are refused.
pub fn jincr_by_float(store: &mut Store, cmd: &JIncrByFloatCmd) -> (r: String)
    requires
        old(store).wf(),
    ensures
        final(store).wf(),
        jincrf_post(
            *old(store),
            *final(store),
            cmd.arg_key@,
            cmd.arg_path@,
            cmd.arg_increment_value@,
            r@,
        ),
{
    let delta = match crate::util::parse_scaled_e7(&cmd.arg_increment_value) {
        Some(v) => v,
        None => {
            return crate::printer::print_err("ERR");
        },
    };
    let doc: Json = match store.find(cmd.arg_key.as_str()) {
        Some(i) => match store.entries[i].1 {
            Data::Json(ref j) => crate::json::clone_json(j),
            _ => {
                return crate::printer::print_string(&crate::geo::format_e7(0));
            },
        },
        None => Json::Null,
    };
    let segs = crate::json::split_str(cmd.arg_path.as_str(), '.');
    proof {
        assert(crate::json::seg_views(segs@).skip(0) =~= crate::json::spec_split(
            cmd.arg_path@,
            '.',
        ));
    }
    let current: Option<i64> = match crate::json::json_get_path(&doc, &segs, 0) {
        Some(v) => match *v {
            Json::Num(ref lit) => match crate::util::parse_scaled_e7(lit) {
                Some(n) => Some(n),
                None => {
                    store.put(cmd.arg_key.clone(), Data::Json(doc));
                    return crate::printer::print_string(&crate::geo::format_e7(0));
                },
            },
            Json::Null => None,
            _ => {
                store.put(cmd.arg_key.clone(), Data::Json(doc));
                return crate::printer::print_string(&crate::geo::format_e7(0));
            },
        },
        None => None,
    };
    let base: i64 = match current {
        Some(b) => b,
        None => 0,
    };
    if delta >= 0 {
        if base > i64::MAX - delta {
            return crate::printer::print_err("ERR");
        }
    } else {
        if base < i64::MIN - delta {
            return crate::printer::print_err("ERR");
        }
    }
    let newv = base + delta;
    let text = crate::geo::format_e7(newv);
    match crate::json::json_set_path(doc, &segs, 0, Json::Num(text)) {
        Some(d2) => {
            store.put(cmd.arg_key.clone(), Data::Json(d2));
            crate::printer::print_string(&crate::geo::format_e7(newv))
        },
        None => crate::printer::print_err("ERR"),
    }
}

/// What a path query returns, serialized as one JSON array: a function of
/// the document text and the selector alone.
pub uninterp spec fn jsonpath_of(doc: Seq<char>, path: Seq<char>) -> Option<Seq<char>>;

/// Relies on jsonpath_lib::select_as_str: parses the document, selects the
/// matches of the path, and serializes them as one JSON array.
#[verifier::external_body]
fn jsonpath_select(doc: &str, path: &str) -> (r: Option<String>)
    ensures
        match jsonpath_of(doc@, path@) {
            Some(t) => r matches Some(s) && s@ == t,
            None => r is None,
        },
{
    match jsonpath_lib::select_as_str(doc, path) {
        Ok(s) => Some(s),
        Err(_) => None,
    }
}

/// JPATH: the matches of a path query, one serialized value per element;
/// an empty-string reply exactly when the query engine refuses the
/// document or selector, the document is null, or what comes back is not
/// one well-formed array.
pub fn jpath(store: &Store, cmd: &JPathCmd) -> (r: String)
    requires
        store.wf(),
    ensures
        match store.val(cmd.arg_key@) {
            Some(DataModel::Json(m)) => if m is Null {
                r@ == bulk_reply(Seq::<char>::empty())
            } else {
                match jsonpath_of(jser(m), cmd.arg_selector@) {
                    None => r@ == bulk_reply(Seq::<char>::empty()),
                    Some(t) => match crate::json::spec_json_doc(vstd::utf8::encode_utf8(t)) {
                        Some(JsonModel::Arr(elems)) => r@ == crate::printer::arr_reply(
                            elems.map_values(|e: JsonModel| jser(e)),
                        ),
                        _ => r@ == bulk_reply(Seq::<char>::empty()),
                    },
                }
            },
            Some(_) => r@ == error_reply("ERR Invalid key for data type"@),
            None => r@ == error_reply("KEY_NOT_FOUND"@),
        },
{
    let i = match store.find(cmd.arg_key.as_str()) {
        Some(i) => i,
        None => {
            return crate::printer::print_err("KEY_NOT_FOUND");
        },
    };
    let doc = match store.entries[i].1 {
        Data::Json(ref j) => j,
        _ => {
            return crate::printer::print_err("ERR Invalid key for data type");
        },
    };
    if let Json::Null = *doc {
        return crate::printer::print_string(&String::new());
    }
    let text = crate::json::json_to_string(doc);
    let selected = match jsonpath_select(text.as_str(), cmd.arg_selector.as_str()) {
        Some(s) => s,
        None => {
            return crate::printer::print_string(&String::new());
        },
    };
    // split the returned array into its elements with the document parser
    let arr = match crate::json::parse_json(selected.as_str().as_bytes()) {
        Some(Json::Arr(items)) => items,
        _ => {
            return crate::printer::print_string(&String::new());
        },
    };
    let ghost elems = crate::json::jmodels(arr@);
    proof {
        crate::json::lemma_jmodels(arr@);
    }
    let mut strings: Vec<String> = Vec::new();
    let mut k: usize = 0;
    while k < arr.len()
        invariant
            k <= arr@.len(),
            elems == crate::json::jmodels(arr@),
            elems.len() == arr@.len(),
            forall|j: int|
                0 <= j < arr@.len() ==> #[trigger] elems[j] == crate::json::jmodel(arr@[j]),
            strings@.map_values(|s: String| s@) =~= elems.map_values(|e: JsonModel| jser(e)).take(
                k as int,
            ),
        decreases arr@.len() - k,
    {
        let ghost pre = strings@.map_values(|s: String| s@);
        let s = crate::json::json_to_string(&arr[k]);
        strings.push(s);
        k = k + 1;
        proof {
            assert(strings@.map_values(|s: String| s@) =~= pre.push(strings@.last()@));
            assert(strings@.map_values(|s: String| s@) =~= elems.map_values(
                |e: JsonModel| jser(e),
            ).take(k as int));
        }
    }
    proof {
        let m = elems.map_values(|e: JsonModel| jser(e));
        assert(m.take(m.len() as int) =~= m);
    }
    crate::printer::print_arr(strings)
}

/// The index of a tag among member triples, or the count when absent.
pub open spec fn midx(ms: Seq<(Seq<char>, i64, i64)>, tag: Seq<char>) -> int
    decreases ms.len(),
{
    if ms.len() == 0 {
        0
    } else if ms[0].0 == tag {
        0
    } else {
        1 + midx(ms.drop_first(), tag)
    }
}

pub open spec fn mhas(ms: Seq<(Seq<char>, i64, i64)>, tag: Seq<char>) -> bool {
    midx(ms, tag) < ms.len()
}

/// The member index of a tag equals the point index: members are the
/// points, tag for tag.
pub proof fn lemma_tag_midx(ps: Seq<crate::geo::GeoPoint2D>, tag: Seq<char>)
    ensures
        midx(geo_members_of(ps), tag) == crate::geo::tag_index(ps, tag),
        mhas(geo_members_of(ps), tag) == crate::geo::has_tag(ps, tag),
    decreases ps.len(),
{
    lemma_geo_members_of(ps);
    if ps.len() > 0 && ps[0].tag@ != tag {
        lemma_tag_midx(ps.drop_first(), tag);
        assert(geo_members_of(ps).drop_first() =~= geo_members_of(ps.drop_first())) by {
            lemma_geo_members_of(ps.drop_first());
        }
    }
}

/// The member triples of a point list.
pub open spec fn geo_members_of(ps: Seq<crate::geo::GeoPoint2D>) -> Seq<(Seq<char>, i64, i64)> {
    ps.map_values(|p: crate::geo::GeoPoint2D| (p.tag@, p.spec_x(), p.spec_y()))
}

pub proof fn lemma_geo_members_of(ps: Seq<crate::geo::GeoPoint2D>)
    ensures
        geo_members_of(ps).len() == ps.len(),
        forall|i: int|
            0 <= i < ps.len() ==> #[trigger] geo_members_of(ps)[i] == (
                ps[i].tag@,
                ps[i].spec_x(),
                ps[i].spec_y(),
            ),
{
}

/// Member triples after one upsert: an existing tag's coordinates are
/// replaced, a new tag is appended.
pub open spec fn m_upsert(
    ms: Seq<(Seq<char>, i64, i64)>,
    tag: Seq<char>,
    x: i64,
    y: i64,
) -> Seq<(Seq<char>, i64, i64)> {
    if mhas(ms, tag) {
        ms.update(midx(ms, tag), (tag, x, y))
    } else {
        ms.push((tag, x, y))
    }
}

/// Member triples after a sequence of upserts, wire order (lat, lng, tag).
pub open spec fn m_upsert_all(
    ms: Seq<(Seq<char>, i64, i64)>,
    items: Seq<(i64, i64, Seq<char>)>,
) -> Seq<(Seq<char>, i64, i64)>
    decreases items.len(),
{
    if items.len() == 0 {
        ms
    } else {
        m_upsert_all(m_upsert(ms, items[0].2, items[0].0, items[0].1), items.drop_first())
    }
}

/// Member triples and removal count after removing a sequence of tags.
pub open spec fn m_remove_all(
    ms: Seq<(Seq<char>, i64, i64)>,
    tags: Seq<Seq<char>>,
) -> (Seq<(Seq<char>, i64, i64)>, int)
    decreases tags.len(),
{
    if tags.len() == 0 {
        (ms, 0)
    } else {
        let step = if mhas(ms, tags[0]) {
            (ms.remove(midx(ms, tags[0])), 1int)
        } else {
            (ms, 0int)
        };
        let rest = m_remove_all(step.0, tags.drop_first());
        (rest.0, step.1 + rest.1)
    }
}

/// The stored geohash of each requested tag, the empty string for tags that
/// are no members.
pub open spec fn hash_rows(
    ps: Seq<crate::geo::GeoPoint2D>,
    items: Seq<Seq<char>>,
) -> Seq<Seq<char>> {
    items.map_values(
        |t: Seq<char>| if crate::geo::has_tag(ps, t) {
            ps[crate::geo::tag_index(ps, t)].spec_hash()
        } else {
            Seq::<char>::empty()
        },
    )
}

/// The coordinate pair of each requested tag as decimal text, an empty row
/// for tags that are no members.
pub open spec fn pos_rows(
    ps: Seq<crate::geo::GeoPoint2D>,
    items: Seq<Seq<char>>,
) -> Seq<Seq<Seq<char>>> {
    items.map_values(
        |t: Seq<char>| if crate::geo::has_tag(ps, t) {
            seq![
                crate::geo::fmt_e7(ps[crate::geo::tag_index(ps, t)].spec_x()),
                crate::geo::fmt_e7(ps[crate::geo::tag_index(ps, t)].spec_y()),
            ]
        } else {
            Seq::<Seq<char>>::empty()
        },
    )
}

/// Every member as a radius candidate: tag, geohash, latitude, longitude.
pub open spec fn cand_rows(ps: Seq<crate::geo::GeoPoint2D>) -> Seq<(Seq<char>, Seq<char>, i64, i64)> {
    ps.map_values(
        |p: crate::geo::GeoPoint2D| (p.tag@, p.spec_hash(), p.spec_x(), p.spec_y()),
    )
}

pub open spec fn cands_view(cs: Seq<(String, String, i64, i64)>) -> Seq<
    (Seq<char>, Seq<char>, i64, i64),
> {
    cs.map_values(|c: (String, String, i64, i64)| (c.0@, c.1@, c.2, c.3))
}


/// Upserting one point moves the member list by one `m_upsert` step.
pub proof fn lemma_members_upsert(ps: Seq<crate::geo::GeoPoint2D>, q: Seq<crate::geo::GeoPoint2D>, p: crate::geo::GeoPoint2D)
    requires
        crate::geo::has_tag(ps, p.tag@) ==> q == ps.update(crate::geo::tag_index(ps, p.tag@), p),
        !crate::geo::has_tag(ps, p.tag@) ==> q == ps.push(p),
    ensures
        geo_members_of(q) == m_upsert(geo_members_of(ps), p.tag@, p.spec_x(), p.spec_y()),
{
    lemma_tag_midx(ps, p.tag@);
    crate::geo::lemma_tag_index(ps, p.tag@);
    lemma_geo_members_of(ps);
    lemma_geo_members_of(q);
    if crate::geo::has_tag(ps, p.tag@) {
        assert(geo_members_of(q) =~= geo_members_of(ps).update(
            crate::geo::tag_index(ps, p.tag@),
            (p.tag@, p.spec_x(), p.spec_y()),
        ));
    } else {
        assert(geo_members_of(q) =~= geo_members_of(ps).push(
            (p.tag@, p.spec_x(), p.spec_y()),
        ));
    }
}

/// Removing one tagged point moves the member list by one removal.
pub proof fn lemma_members_remove(ps: Seq<crate::geo::GeoPoint2D>, q: Seq<crate::geo::GeoPoint2D>, tag: Seq<char>)
    requires
        crate::geo::has_tag(ps, tag),
        q == ps.remove(crate::geo::tag_index(ps, tag)),
    ensures
        mhas(geo_members_of(ps), tag),
        geo_members_of(q) == geo_members_of(ps).remove(midx(geo_members_of(ps), tag)),
{
    lemma_tag_midx(ps, tag);
    crate::geo::lemma_tag_index(ps, tag);
    lemma_geo_members_of(ps);
    lemma_geo_members_of(q);
    assert(geo_members_of(q) =~= geo_members_of(ps).remove(
        crate::geo::tag_index(ps, tag),
    ));
}

/// A left fold of upserts advances one step at a time.
pub proof fn lemma_m_upsert_all_snoc(
    ms: Seq<(Seq<char>, i64, i64)>,
    items: Seq<(i64, i64, Seq<char>)>,
    k: int,
)
    requires
        0 <= k < items.len(),
    ensures
        m_upsert_all(ms, items.take(k + 1)) == m_upsert(
            m_upsert_all(ms, items.take(k)),
            items[k].2,
            items[k].0,
            items[k].1,
        ),
    decreases k,
{
    reveal_with_fuel(m_upsert_all, 3);
    if k == 0 {
        assert(items.take(1).drop_first() =~= Seq::<(i64, i64, Seq<char>)>::empty());
        assert(items.take(0) =~= Seq::<(i64, i64, Seq<char>)>::empty());
        assert(items.take(1)[0] == items[0]);
    } else {
        let ms2 = m_upsert(ms, items[0].2, items[0].0, items[0].1);
        lemma_m_upsert_all_snoc(ms2, items.drop_first(), k - 1);
        assert(items.take(k + 1)[0] == items[0]);
        assert(items.take(k)[0] == items[0]);
        assert(items.take(k + 1).drop_first() =~= items.drop_first().take(k));
        assert(items.take(k).drop_first() =~= items.drop_first().take(k - 1));
        assert(items.drop_first().take(k - 1 + 1) == items.drop_first().take(k));
        assert(items.drop_first()[k - 1] == items[k]);
        assert(m_upsert_all(ms, items.take(k + 1)) == m_upsert_all(
            ms2,
            items.drop_first().take(k),
        ));
        assert(m_upsert_all(ms, items.take(k)) == m_upsert_all(
            ms2,
            items.drop_first().take(k - 1),
        ));
    }
}

/// A left fold of removals advances one step at a time.
pub proof fn lemma_m_remove_all_snoc(
    ms: Seq<(Seq<char>, i64, i64)>,
    tags: Seq<Seq<char>>,
    k: int,
)
    requires
        0 <= k < tags.len(),
    ensures
        ({
            let before = m_remove_all(ms, tags.take(k));
            let after = m_remove_all(ms, tags.take(k + 1));
            if mhas(before.0, tags[k]) {
                after.0 == before.0.remove(midx(before.0, tags[k])) && after.1 == before.1 + 1
            } else {
                after.0 == before.0 && after.1 == before.1
            }
        }),
    decreases k,
{
    reveal_with_fuel(m_remove_all, 3);
    if k == 0 {
        assert(tags.take(1).drop_first() =~= Seq::<Seq<char>>::empty());
        assert(tags.take(0) =~= Seq::<Seq<char>>::empty());
        assert(tags.take(1)[0] == tags[0]);
    } else {
        let step = if mhas(ms, tags[0]) {
            (ms.remove(midx(ms, tags[0])), 1int)
        } else {
            (ms, 0int)
        };
        lemma_m_remove_all_snoc(step.0, tags.drop_first(), k - 1);
        assert(tags.take(k + 1)[0] == tags[0]);
        assert(tags.take(k)[0] == tags[0]);
        assert(tags.take(k + 1).drop_first() =~= tags.drop_first().take(k));
        assert(tags.take(k).drop_first() =~= tags.drop_first().take(k - 1));
        assert(tags.drop_first().take(k - 1 + 1) == tags.drop_first().take(k));
        assert(tags.drop_first()[k - 1] == tags[k]);
        assert(m_remove_all(ms, tags.take(k + 1)) == ({
            let rest = m_remove_all(step.0, tags.drop_first().take(k));
            (rest.0, step.1 + rest.1)
        }));
        assert(m_remove_all(ms, tags.take(k)) == ({
            let rest = m_remove_all(step.0, tags.drop_first().take(k - 1));
            (rest.0, step.1 + rest.1)
        }));
    }
}

/// Member triples in wire item order: latitude, longitude, tag.
pub open spec fn members_as_items(ms: Seq<(Seq<char>, i64, i64)>) -> Seq<(i64, i64, Seq<char>)> {
    ms.map_values(|m: (Seq<char>, i64, i64)| (m.1, m.2, m.0))
}

/// GEOADD: upserts the given points into the key's geo index, latest
/// coordinates winning per tag; the reply counts the points given. The
/// index invariant ties the R-tree's members to the tag list after every
/// mutation.
pub fn geo_add(store: &mut Store, cmd: &GeoAddCmd) -> (r: String)
    requires
        old(store).wf(),
        cmd.items@.len() <= i64::MAX,
        forall|i: int|
            0 <= i < cmd.items@.len() ==> -900000000 <= (#[trigger] cmd.items@[i]).0 <= 900000000
                && -1800000000 <= cmd.items@[i].1 <= 1800000000,
    ensures
        final(store).wf(),
        ({
            let items = crate::command::geo_items_model(cmd.items@);
            match old(store).val(cmd.arg_key@) {
                Some(DataModel::Geo(ms)) => {
                    &&& r@ == int_reply(cmd.items@.len() as int)
                    &&& final(store).val(cmd.arg_key@) == Some(
                        DataModel::Geo(m_upsert_all(ms, items)),
                    )
                    &&& forall|k: Seq<char>|
                        k != cmd.arg_key@ ==> final(store).val(k) == old(store).val(k)
                },
                None => {
                    &&& r@ == int_reply(cmd.items@.len() as int)
                    &&& final(store).val(cmd.arg_key@) == Some(
                        DataModel::Geo(
                            m_upsert_all(Seq::<(Seq<char>, i64, i64)>::empty(), items),
                        ),
                    )
                    &&& forall|k: Seq<char>|
                        k != cmd.arg_key@ ==> final(store).val(k) == old(store).val(k)
                },
                Some(_) => r@ == error_reply("ERR Invalid key for data type"@) && (forall|
                    k: Seq<char>,
                |
                    final(store).val(k) == old(store).val(k)),
            }
        }),
{
    let taken = store.take(cmd.arg_key.as_str());
    let mut tree: GeoTree = match taken {
        Some(Data::GeoTree(t)) => t,
        Some(other) => {
            store.put(cmd.arg_key.clone(), other);
            return crate::printer::print_err("ERR Invalid key for data type");
        },
        None => GeoTree::new(),
    };
    let ghost ms0 = geo_members_of(tree.spec_points());
    let ghost items = crate::command::geo_items_model(cmd.items@);
    proof {
        assert(geo_members(tree) =~= geo_members_of(tree.spec_points()));
        assert(items.take(0) =~= Seq::<(i64, i64, Seq<char>)>::empty());
        if tree.spec_points().len() == 0 {
            assert(ms0 =~= Seq::<(Seq<char>, i64, i64)>::empty());
        }
    }
    let mut i: usize = 0;
    while i < cmd.items.len()
        invariant
            i <= cmd.items@.len(),
            tree.wf(),
            items == crate::command::geo_items_model(cmd.items@),
            items.len() == cmd.items@.len(),
            geo_members_of(tree.spec_points()) == m_upsert_all(ms0, items.take(i as int)),
            forall|k: int|
                0 <= k < cmd.items@.len() ==> -900000000 <= (#[trigger] cmd.items@[k]).0
                    <= 900000000 && -1800000000 <= cmd.items@[k].1 <= 1800000000,
        decreases cmd.items@.len() - i,
    {
        let (la, lo, tag) = (cmd.items[i].0, cmd.items[i].1, cmd.items[i].2.clone());
        let p = crate::geo::GeoPoint2D::with_cord(tag, la, lo);
        let ghost pre = tree.spec_points();
        tree.insert(p);
        proof {
            assert(items[i as int] == (la as i64, lo as i64, cmd.items@[i as int].2@));
            lemma_members_upsert(pre, tree.spec_points(), p);
            lemma_m_upsert_all_snoc(ms0, items, i as int);
        }
        i = i + 1;
    }
    proof {
        assert(items.take(items.len() as int) =~= items);
        assert(geo_members(tree) =~= geo_members_of(tree.spec_points()));
    }
    store.put(cmd.arg_key.clone(), Data::GeoTree(tree));
    crate::printer::print_integer(cmd.items.len() as i64)
}

/// GEOHASH: each tag's stored geohash, the empty string for missing tags;
/// a stored hash is always the one the member's coordinates derive.
pub fn geo_hash(store: &Store, cmd: &GeoHashCmd) -> (r: String)
    requires
        store.wf(),
    ensures
        match store.val(cmd.arg_key@) {
            Some(DataModel::Geo(_)) => true,
            Some(_) => r@ == error_reply("ERR"@),
            None => r@ == error_reply("KEY_NOT_FOUND"@),
        },
        ({
            let i = kidx(store.entries@, cmd.arg_key@);
            khas(store.entries@, cmd.arg_key@) && store.entries@[i].1 is GeoTree
                ==> r@ == crate::printer::arr_reply(
                hash_rows(
                    store.entries@[i].1->GeoTree_0.spec_points(),
                    cmd.items@.map_values(|s: String| s@),
                ),
            )
        }),
{
    let i = match store.find(cmd.arg_key.as_str()) {
        Some(i) => i,
        None => {
            return crate::printer::print_err("KEY_NOT_FOUND");
        },
    };
    let tree = match store.entries[i].1 {
        Data::GeoTree(ref t) => t,
        _ => {
            return crate::printer::print_err("ERR");
        },
    };
    let ghost ps = tree.spec_points();
    let ghost items = cmd.items@.map_values(|s: String| s@);
    let mut hashes: Vec<String> = Vec::new();
    let mut k: usize = 0;
    while k < cmd.items.len()
        invariant
            k <= cmd.items@.len(),
            items == cmd.items@.map_values(|s: String| s@),
            ps == tree.spec_points(),
            hashes@.map_values(|s: String| s@) =~= hash_rows(ps, items).take(k as int),
        decreases cmd.items@.len() - k,
    {
        let ghost pre = hashes@.map_values(|s: String| s@);
        match tree.get(cmd.items[k].as_str()) {
            Some(p) => {
                hashes.push(p.hash().clone());
            },
            None => {
                hashes.push(String::new());
            },
        }
        k = k + 1;
        proof {
            assert(hashes@.map_values(|s: String| s@) =~= pre.push(hashes@.last()@));
            assert(hashes@.map_values(|s: String| s@) =~= hash_rows(ps, items).take(k as int));
        }
    }
    proof {
        assert(hash_rows(ps, items).take(items.len() as int) =~= hash_rows(ps, items));
    }
    crate::printer::print_arr(hashes)
}

/// GEOPOS: each tag's latitude and longitude pair as decimal text, an
/// empty row for missing tags.
pub fn geo_pos(store: &Store, cmd: &GeoPosCmd) -> (r: String)
    requires
        store.wf(),
    ensures
        match store.val(cmd.arg_key@) {
            Some(DataModel::Geo(_)) => true,
            Some(_) => r@ == error_reply("ERR Invalid key for data type"@),
            None => r@ == error_reply("KEY_NOT_FOUND"@),
        },
        ({
            let i = kidx(store.entries@, cmd.arg_key@);
            khas(store.entries@, cmd.arg_key@) && store.entries@[i].1 is GeoTree
                ==> r@ == crate::printer::nested_arr_reply(
                pos_rows(
                    store.entries@[i].1->GeoTree_0.spec_points(),
                    cmd.items@.map_values(|s: String| s@),
                ),
            )
        }),
{
    let i = match store.find(cmd.arg_key.as_str()) {
        Some(i) => i,
        None => {
            return crate::printer::print_err("KEY_NOT_FOUND");
        },
    };
    let tree = match store.entries[i].1 {
        Data::GeoTree(ref t) => t,
        _ => {
            return crate::printer::print_err("ERR Invalid key for data type");
        },
    };
    let ghost ps = tree.spec_points();
    let ghost items = cmd.items@.map_values(|s: String| s@);
    let mut rows: Vec<Vec<String>> = Vec::new();
    let mut k: usize = 0;
    while k < cmd.items.len()
        invariant
            k <= cmd.items@.len(),
            items == cmd.items@.map_values(|s: String| s@),
            ps == tree.spec_points(),
            rows@.map_values(|v: Vec<String>| v@.map_values(|s: String| s@)) =~= pos_rows(
                ps,
                items,
            ).take(k as int),
        decreases cmd.items@.len() - k,
    {
        let ghost pre = rows@.map_values(|v: Vec<String>| v@.map_values(|s: String| s@));
        match tree.get(cmd.items[k].as_str()) {
            Some(p) => {
                let mut row: Vec<String> = Vec::new();
                row.push(crate::geo::format_e7(p.x_cord()));
                row.push(crate::geo::format_e7(p.y_cord()));
                proof {
                    assert(row@.map_values(|s: String| s@) =~= pos_rows(ps, items)[k as int]);
                }
                rows.push(row);
            },
            None => {
                let row: Vec<String> = Vec::new();
                proof {
                    assert(row@.map_values(|s: String| s@) =~= pos_rows(ps, items)[k as int]);
                }
                rows.push(row);
            },
        }
        k = k + 1;
        proof {
            assert(rows@.map_values(|v: Vec<String>| v@.map_values(|s: String| s@)) =~= pre.push(
                rows@.last()@.map_values(|s: String| s@),
            ));
            assert(rows@.map_values(|v: Vec<String>| v@.map_values(|s: String| s@)) =~= pos_rows(
                ps,
                items,
            ).take(k as int));
        }
    }
    proof {
        assert(pos_rows(ps, items).take(items.len() as int) =~= pos_rows(ps, items));
    }
    crate::printer::print_nested_arr(rows)
}

/// GEODEL: removes a geo key wholesale.
pub fn geo_del(store: &mut Store, cmd: &GeoDelCmd) -> (r: String)
    requires
        old(store).wf(),
    ensures
        final(store).wf(),
        match old(store).val(cmd.arg_key@) {
            Some(DataModel::Geo(_)) => r@ == int_reply(1) && final(store).val(
                cmd.arg_key@,
            ) is None && forall|k: Seq<char>|
                k != cmd.arg_key@ ==> final(store).val(k) == old(store).val(k),
            Some(_) => r@ == error_reply("ERR Invalid key for data type"@) && *final(store)
                == *old(store),
            None => r@ == error_reply("KEY_NOT_FOUND"@) && *final(store) == *old(store),
        },
{
    let i = match store.find(cmd.arg_key.as_str()) {
        Some(i) => i,
        None => {
            return crate::printer::print_err("KEY_NOT_FOUND");
        },
    };
    match store.entries[i].1 {
        Data::GeoTree(_) => {},
        _ => {
            return crate::printer::print_err("ERR Invalid key for data type");
        },
    }
    store.remove_key(cmd.arg_key.as_str());
    crate::printer::print_integer(1)
}

/// GEOREM: removes the tagged members, counting how many were there; the
/// index invariant is kept through every removal.
pub fn geo_remove(store: &mut Store, cmd: &GeoRemoveCmd) -> (r: String)
    requires
        old(store).wf(),
        cmd.items@.len() <= i64::MAX,
    ensures
        final(store).wf(),
        ({
            let tags = cmd.items@.map_values(|s: String| s@);
            match old(store).val(cmd.arg_key@) {
                Some(DataModel::Geo(ms)) => {
                    &&& r@ == int_reply(m_remove_all(ms, tags).1)
                    &&& final(store).val(cmd.arg_key@) == Some(
                        DataModel::Geo(m_remove_all(ms, tags).0),
                    )
                    &&& forall|k: Seq<char>|
                        k != cmd.arg_key@ ==> final(store).val(k) == old(store).val(k)
                },
                Some(_) => r@ == int_reply(0) && (forall|k: Seq<char>|
                    final(store).val(k) == old(store).val(k)),
                None => r@ == int_reply(0) && *final(store) == *old(store),
            }
        }),
{
    let taken = store.take(cmd.arg_key.as_str());
    let mut tree: GeoTree = match taken {
        Some(Data::GeoTree(t)) => t,
        Some(other) => {
            let ghost om = data_model(other);
            proof {
                assert(old(store).val(cmd.arg_key@) == Some(om));
                assert(!(om is Geo));
            }
            store.put(cmd.arg_key.clone(), other);
            proof {
                assert(store.val(cmd.arg_key@) == Some(om));
                assert(forall|k: Seq<char>| store.val(k) == old(store).val(k));
            }
            return crate::printer::print_integer(0);
        },
        None => {
            return crate::printer::print_integer(0);
        },
    };
    let ghost ms0 = geo_members_of(tree.spec_points());
    let ghost tags = cmd.items@.map_values(|s: String| s@);
    proof {
        assert(geo_members(tree) =~= geo_members_of(tree.spec_points()));
        assert(tags.take(0) =~= Seq::<Seq<char>>::empty());
    }
    let mut count: i64 = 0;
    let mut k: usize = 0;
    while k < cmd.items.len()
        invariant
            k <= cmd.items@.len(),
            cmd.items@.len() <= i64::MAX,
            0 <= count <= k,
            tree.wf(),
            tags == cmd.items@.map_values(|s: String| s@),
            tags.len() == cmd.items@.len(),
            geo_members_of(tree.spec_points()) == m_remove_all(ms0, tags.take(k as int)).0,
            count == m_remove_all(ms0, tags.take(k as int)).1,
        decreases cmd.items@.len() - k,
    {
        let ghost pre = tree.spec_points();
        proof {
            lemma_tag_midx(pre, tags[k as int]);
            lemma_m_remove_all_snoc(ms0, tags, k as int);
        }
        if tree.delete(cmd.items[k].as_str()) {
            proof {
                lemma_members_remove(pre, tree.spec_points(), tags[k as int]);
            }
            count = count + 1;
        }
        k = k + 1;
    }
    proof {
        assert(tags.take(tags.len() as int) =~= tags);
        assert(geo_members(tree) =~= geo_members_of(tree.spec_points()));
    }
    store.put(cmd.arg_key.clone(), Data::GeoTree(tree));
    crate::printer::print_integer(count)
}

/// The GeoJSON feature of one member: a point geometry in stored
/// coordinate order, the tag under "name", the unused "data" null.
pub open spec fn feature_model(p: crate::geo::GeoPoint2D) -> JsonModel {
    JsonModel::Obj(
        seq![
            ("type"@, JsonModel::Str("Feature"@)),
            (
                "properties"@,
                JsonModel::Obj(
                    seq![("name"@, JsonModel::Str(p.tag@)), ("data"@, JsonModel::Null)],
                ),
            ),
            (
                "geometry"@,
                JsonModel::Obj(
                    seq![
                        ("type"@, JsonModel::Str("Point"@)),
                        (
                            "coordinates"@,
                            JsonModel::Arr(
                                seq![
                                    JsonModel::Num(crate::geo::fmt_e7(p.spec_x())),
                                    JsonModel::Num(crate::geo::fmt_e7(p.spec_y())),
                                ],
                            ),
                        ),
                    ],
                ),
            ),
        ],
    )
}

/// The features of the requested tags that are members, in request order.
pub open spec fn selected_features(
    ps: Seq<crate::geo::GeoPoint2D>,
    items: Seq<Seq<char>>,
) -> Seq<JsonModel>
    decreases items.len(),
{
    if items.len() == 0 {
        Seq::empty()
    } else {
        (if crate::geo::has_tag(ps, items[0]) {
            seq![feature_model(ps[crate::geo::tag_index(ps, items[0])])]
        } else {
            Seq::<JsonModel>::empty()
        }) + selected_features(ps, items.drop_first())
    }
}

proof fn lemma_selected_features_snoc(
    ps: Seq<crate::geo::GeoPoint2D>,
    items: Seq<Seq<char>>,
    k: int,
)
    requires
        0 <= k < items.len(),
    ensures
        selected_features(ps, items.take(k + 1)) == selected_features(ps, items.take(k)) + (
        if crate::geo::has_tag(ps, items[k]) {
            seq![feature_model(ps[crate::geo::tag_index(ps, items[k])])]
        } else {
            Seq::<JsonModel>::empty()
        }),
    decreases k,
{
    if k == 0 {
        assert(items.take(1).drop_first() =~= Seq::<Seq<char>>::empty());
        assert(items.take(0) =~= Seq::<Seq<char>>::empty());
        assert(items.take(1)[0] == items[0]);
        assert(selected_features(ps, items.take(1)) =~= selected_features(ps, items.take(0)) + (
        if crate::geo::has_tag(ps, items[0]) {
            seq![feature_model(ps[crate::geo::tag_index(ps, items[0])])]
        } else {
            Seq::<JsonModel>::empty()
        }));
    } else {
        lemma_selected_features_snoc(ps, items.drop_first(), k - 1);
        assert(items.take(k + 1)[0] == items[0]);
        assert(items.take(k)[0] == items[0]);
        assert(items.take(k + 1).drop_first() =~= items.drop_first().take(k));
        assert(items.take(k).drop_first() =~= items.drop_first().take(k - 1));
        assert(items.drop_first().take(k - 1 + 1) == items.drop_first().take(k));
        assert(items.drop_first()[k - 1] == items[k]);
        assert(selected_features(ps, items.take(k + 1)) =~= selected_features(ps, items.take(k))
            + (if crate::geo::has_tag(ps, items[k]) {
            seq![feature_model(ps[crate::geo::tag_index(ps, items[k])])]
        } else {
            Seq::<JsonModel>::empty()
        }));
    }
}

/// The FeatureCollection document of a feature list.
pub open spec fn fc_model(features: Seq<JsonModel>) -> JsonModel {
    JsonModel::Obj(
        seq![
            ("type"@, JsonModel::Str("FeatureCollection"@)),
            ("features"@, JsonModel::Arr(features)),
        ],
    )
}

/// GEOJSON: a FeatureCollection of the selected members, serialized.
pub fn geo_json(store: &Store, cmd: &GeoJsonCmd) -> (r: String)
    requires
        store.wf(),
    ensures
        match store.val(cmd.arg_key@) {
            Some(DataModel::Geo(_)) => true,
            Some(_) => r@ == error_reply("ERR Invalid key for data type"@),
            None => r@ == error_reply("KEY_NOT_FOUND"@),
        },
        ({
            let i = kidx(store.entries@, cmd.arg_key@);
            khas(store.entries@, cmd.arg_key@) && store.entries@[i].1 is GeoTree
                ==> r@ == bulk_reply(
                jser(
                    fc_model(
                        selected_features(
                            store.entries@[i].1->GeoTree_0.spec_points(),
                            cmd.items@.map_values(|s: String| s@),
                        ),
                    ),
                ),
            )
        }),
{
    let i = match store.find(cmd.arg_key.as_str()) {
        Some(i) => i,
        None => {
            return crate::printer::print_err("KEY_NOT_FOUND");
        },
    };
    let tree = match store.entries[i].1 {
        Data::GeoTree(ref t) => t,
        _ => {
            return crate::printer::print_err("ERR Invalid key for data type");
        },
    };
    let ghost ps = tree.spec_points();
    let ghost items = cmd.items@.map_values(|s: String| s@);
    let mut features: Vec<Json> = Vec::new();
    let mut k: usize = 0;
    proof {
        crate::json::lemma_jmodels(features@);
        assert(crate::json::jmodels(features@) =~= Seq::<JsonModel>::empty());
        assert(items.take(0) =~= Seq::<Seq<char>>::empty());
    }
    while k < cmd.items.len()
        invariant
            k <= cmd.items@.len(),
            items == cmd.items@.map_values(|s: String| s@),
            items.len() == cmd.items@.len(),
            ps == tree.spec_points(),
            crate::json::jmodels(features@) == selected_features(ps, items.take(k as int)),
        decreases cmd.items@.len() - k,
    {
        let ghost pre = features@;
        proof {
            lemma_selected_features_snoc(ps, items, k as int);
        }
        match tree.get(cmd.items[k].as_str()) {
            Some(p) => {
                let f = geo_feature(p);
                features.push(f);
                proof {
                    crate::json::lemma_jmodels(features@);
                    crate::json::lemma_jmodels(pre);
                    assert(crate::json::jmodels(features@) =~= crate::json::jmodels(pre).push(
                        crate::json::jmodel(features@.last()),
                    ));
                }
            },
            None => {},
        }
        k = k + 1;
        proof {
            assert(crate::json::jmodels(features@) =~= selected_features(
                ps,
                items.take(k as int),
            ));
        }
    }
    proof {
        assert(items.take(items.len() as int) =~= items);
    }
    let mut doc_members: Vec<(String, Json)> = Vec::new();
    doc_members.push((text_of("type"), Json::Str(text_of("FeatureCollection"))));
    doc_members.push((text_of("features"), Json::Arr(features)));
    let doc = Json::Obj(doc_members);
    proof {
        crate::json::lemma_jobj_models(doc_members@);
        assert(crate::json::jmodel(doc) == fc_model(selected_features(ps, items))) by {
            assert(crate::json::jobj_models(doc_members@) =~= fc_model(
                selected_features(ps, items),
            )->Obj_0);
        }
    }
    let text = crate::json::json_to_string(&doc);
    print_string(&text)
}

/// One GeoJSON feature for a member point.
fn geo_feature(p: &crate::geo::GeoPoint2D) -> (r: Json)
    ensures
        crate::json::jmodel(r) == feature_model(*p),
{
    let mut props: Vec<(String, Json)> = Vec::new();
    props.push((text_of("name"), Json::Str(p.tag.clone())));
    props.push((text_of("data"), Json::Null));
    let mut coords: Vec<Json> = Vec::new();
    coords.push(Json::Num(crate::geo::format_e7(p.x_cord())));
    coords.push(Json::Num(crate::geo::format_e7(p.y_cord())));
    let mut geometry: Vec<(String, Json)> = Vec::new();
    geometry.push((text_of("type"), Json::Str(text_of("Point"))));
    geometry.push((text_of("coordinates"), Json::Arr(coords)));
    let mut feature: Vec<(String, Json)> = Vec::new();
    feature.push((text_of("type"), Json::Str(text_of("Feature"))));
    feature.push((text_of("properties"), Json::Obj(props)));
    feature.push((text_of("geometry"), Json::Obj(geometry)));
    let out = Json::Obj(feature);
    proof {
        crate::json::lemma_jobj_models(props@);
        crate::json::lemma_jmodels(coords@);
        crate::json::lemma_jobj_models(geometry@);
        crate::json::lemma_jobj_models(feature@);
        assert(crate::json::jmodel(out) == feature_model(*p)) by {
            assert(crate::json::jobj_models(props@) =~= feature_model(*p)->Obj_0[1].1->Obj_0);
            assert(crate::json::jmodels(coords@) =~= feature_model(
                *p,
            )->Obj_0[2].1->Obj_0[1].1->Arr_0);
            assert(crate::json::jobj_models(geometry@) =~= feature_model(*p)->Obj_0[2].1->Obj_0);
            assert(crate::json::jobj_models(feature@) =~= feature_model(*p)->Obj_0);
        }
    }
    out
}

fn text_of(s: &str) -> (r: String)
    ensures
        r@ == s@,
{
    s.to_owned()
}

/// What the apply step hands back: a finished reply, or a distance request
/// the caller answers with haversine distances before the reply can be
/// finished. The engine itself computes no distances, so apply stays free
/// of floating point and deterministic in the store it leaves behind.
pub enum ApplyOutcome {
    Reply(String),
    /// GEODIST: the two members' coordinates, in ten-millionths of a degree.
    NeedDist { a: (i64, i64), b: (i64, i64), unit: crate::unit_conv::Units },
    /// GEORADIUS and GEORADIUSBYMEMBER: the origin and every member
    /// (tag, hash, latitude, longitude); the caller hands back one distance
    /// in nanometers and one display text per candidate.
    NeedRadius {
        origin: (i64, i64),
        candidates: Vec<(String, String, i64, i64)>,
        radius: i64,
        order: ArgOrder,
    },
}

/// GEODIST: hands back both members' stored coordinates and the unit; the
/// distance itself is computed by the caller. Each member's absence is its
/// own error, the first member's checked first.
pub fn geo_dist(store: &Store, cmd: &GeoDistCmd) -> (r: ApplyOutcome)
    requires
        store.wf(),
    ensures
        match store.val(cmd.arg_key@) {
            Some(DataModel::Geo(ms)) => if mhas(ms, cmd.arg_mem_1@) {
                if mhas(ms, cmd.arg_mem_2@) {
                    r matches ApplyOutcome::NeedDist { a, b, unit } && a == (
                        ms[midx(ms, cmd.arg_mem_1@)].1,
                        ms[midx(ms, cmd.arg_mem_1@)].2,
                    ) && b == (ms[midx(ms, cmd.arg_mem_2@)].1, ms[midx(ms, cmd.arg_mem_2@)].2)
                        && unit == cmd.arg_unit
                } else {
                    r matches ApplyOutcome::Reply(e) && e@ == error_reply(
                        "ERR member 2 not found"@,
                    )
                }
            } else {
                r matches ApplyOutcome::Reply(e) && e@ == error_reply("ERR member 1 not found"@)
            },
            Some(_) => r matches ApplyOutcome::Reply(e) && e@ == error_reply("ERR"@),
            None => r matches ApplyOutcome::Reply(e) && e@ == error_reply("KEY_NOT_FOUND"@),
        },
{
    let i = match store.find(cmd.arg_key.as_str()) {
        Some(i) => i,
        None => {
            return ApplyOutcome::Reply(crate::printer::print_err("KEY_NOT_FOUND"));
        },
    };
    let tree = match store.entries[i].1 {
        Data::GeoTree(ref t) => t,
        _ => {
            return ApplyOutcome::Reply(crate::printer::print_err("ERR"));
        },
    };
    proof {
        lemma_tag_midx(tree.spec_points(), cmd.arg_mem_1@);
        lemma_tag_midx(tree.spec_points(), cmd.arg_mem_2@);
        lemma_geo_members_of(tree.spec_points());
        assert(geo_members(*tree) =~= geo_members_of(tree.spec_points()));
    }
    let m1 = match tree.get(cmd.arg_mem_1.as_str()) {
        Some(p) => p.get_cord(),
        None => {
            return ApplyOutcome::Reply(crate::printer::print_err("ERR member 1 not found"));
        },
    };
    let m2 = match tree.get(cmd.arg_mem_2.as_str()) {
        Some(p) => p.get_cord(),
        None => {
            return ApplyOutcome::Reply(crate::printer::print_err("ERR member 2 not found"));
        },
    };
    proof {
        let ms = geo_members(*tree);
        let ps = tree.spec_points();
        assert(ms == geo_members_of(ps));
        assert(mhas(ms, cmd.arg_mem_1@));
        assert(mhas(ms, cmd.arg_mem_2@));
        assert(crate::geo::has_tag(ps, cmd.arg_mem_1@));
        assert(crate::geo::has_tag(ps, cmd.arg_mem_2@));
        crate::geo::lemma_tag_index(ps, cmd.arg_mem_1@);
        crate::geo::lemma_tag_index(ps, cmd.arg_mem_2@);
        lemma_geo_members_of(ps);
        assert(geo_members_of(ps)[crate::geo::tag_index(ps, cmd.arg_mem_1@)] == (
            ps[crate::geo::tag_index(ps, cmd.arg_mem_1@)].tag@,
            ps[crate::geo::tag_index(ps, cmd.arg_mem_1@)].spec_x(),
            ps[crate::geo::tag_index(ps, cmd.arg_mem_1@)].spec_y(),
        ));
        assert(geo_members_of(ps)[crate::geo::tag_index(ps, cmd.arg_mem_2@)] == (
            ps[crate::geo::tag_index(ps, cmd.arg_mem_2@)].tag@,
            ps[crate::geo::tag_index(ps, cmd.arg_mem_2@)].spec_x(),
            ps[crate::geo::tag_index(ps, cmd.arg_mem_2@)].spec_y(),
        ));
        assert(midx(ms, cmd.arg_mem_1@) == crate::geo::tag_index(ps, cmd.arg_mem_1@));
        assert(midx(ms, cmd.arg_mem_2@) == crate::geo::tag_index(ps, cmd.arg_mem_2@));
        assert(m1 == (ms[midx(ms, cmd.arg_mem_1@)].1, ms[midx(ms, cmd.arg_mem_1@)].2));
        assert(m2 == (ms[midx(ms, cmd.arg_mem_2@)].1, ms[midx(ms, cmd.arg_mem_2@)].2));
        assert(store.val(cmd.arg_key@) == Some(DataModel::Geo(ms)));
    }
    ApplyOutcome::NeedDist { a: m1, b: m2, unit: cmd.arg_unit }
}

/// Finishes a GEODIST with the caller's distance text.
pub fn geo_dist_reply(dist_text: &String) -> (r: String)
    ensures
        r@ == bulk_reply(dist_text@),
{
    print_string(dist_text)
}

/// GEORADIUS: hands every member out as a candidate, with the query's
/// origin, radius, and order; the caller supplies distances and
/// `geo_radius_reply` filters and orders them.
pub fn geo_radius(store: &Store, cmd: &GeoRadiusCmd) -> (r: ApplyOutcome)
    requires
        store.wf(),
    ensures
        match store.val(cmd.arg_key@) {
            Some(DataModel::Geo(_)) => true,
            Some(_) => r matches ApplyOutcome::Reply(e) && e@ == error_reply(
                "ERR Invalid key for data type"@,
            ),
            None => r matches ApplyOutcome::Reply(e) && e@ == error_reply("KEY_NOT_FOUND"@),
        },
        ({
            let i = kidx(store.entries@, cmd.arg_key@);
            khas(store.entries@, cmd.arg_key@) && store.entries@[i].1 is GeoTree ==> (r matches
                ApplyOutcome::NeedRadius { origin, candidates, radius, order } && origin == (
                cmd.arg_lat,
                cmd.arg_lng,
            ) && cands_view(candidates@) == cand_rows(
                store.entries@[i].1->GeoTree_0.spec_points(),
            ) && radius == cmd.arg_radius && order == cmd.arg_order)
        }),
{
    let i = match store.find(cmd.arg_key.as_str()) {
        Some(i) => i,
        None => {
            return ApplyOutcome::Reply(crate::printer::print_err("KEY_NOT_FOUND"));
        },
    };
    let tree = match store.entries[i].1 {
        Data::GeoTree(ref t) => t,
        _ => {
            return ApplyOutcome::Reply(crate::printer::print_err("ERR Invalid key for data type"));
        },
    };
    let candidates = all_candidates(tree);
    ApplyOutcome::NeedRadius {
        origin: (cmd.arg_lat, cmd.arg_lng),
        candidates,
        radius: cmd.arg_radius,
        order: cmd.arg_order,
    }
}

/// Every member as a (tag, hash, latitude, longitude) candidate row.
fn all_candidates(tree: &GeoTree) -> (r: Vec<(String, String, i64, i64)>)
    ensures
        cands_view(r@) == cand_rows(tree.spec_points()),
{
    let ghost ps = tree.spec_points();
    let mut candidates: Vec<(String, String, i64, i64)> = Vec::new();
    let mut k: usize = 0;
    while k < tree.points.len()
        invariant
            k <= tree.points@.len(),
            ps == tree.spec_points(),
            cands_view(candidates@) =~= cand_rows(ps).take(k as int),
        decreases tree.points@.len() - k,
    {
        let ghost pre = cands_view(candidates@);
        let p = &tree.points[k];
        candidates.push((p.tag.clone(), p.hash().clone(), p.x_cord(), p.y_cord()));
        k = k + 1;
        proof {
            assert(cands_view(candidates@) =~= pre.push(
                (
                    candidates@.last().0@,
                    candidates@.last().1@,
                    candidates@.last().2,
                    candidates@.last().3,
                ),
            ));
            assert(cands_view(candidates@) =~= cand_rows(ps).take(k as int));
        }
    }
    proof {
        assert(cand_rows(ps).take(ps.len() as int) =~= cand_rows(ps));
    }
    candidates
}

/// GEORADIUSBYMEMBER: as GEORADIUS, the origin being the named member's
/// stored position; a missing member is its own error and no query runs.
pub fn geo_radius_by_member(store: &Store, cmd: &GeoRadiusByMemberCmd) -> (r: ApplyOutcome)
    requires
        store.wf(),
    ensures
        match store.val(cmd.arg_key@) {
            Some(DataModel::Geo(ms)) => if mhas(ms, cmd.member@) {
                r matches ApplyOutcome::NeedRadius { origin, candidates, radius, order } && origin
                    == (ms[midx(ms, cmd.member@)].1, ms[midx(ms, cmd.member@)].2) && radius
                    == cmd.arg_radius && order == cmd.arg_order
            } else {
                r matches ApplyOutcome::Reply(e) && e@ == error_reply("ERR member 1 not found"@)
            },
            Some(_) => r matches ApplyOutcome::Reply(e) && e@ == error_reply(
                "ERR Invalid key for data type"@,
            ),
            None => r matches ApplyOutcome::Reply(e) && e@ == error_reply("KEY_NOT_FOUND"@),
        },
        ({
            let i = kidx(store.entries@, cmd.arg_key@);
            khas(store.entries@, cmd.arg_key@) && store.entries@[i].1 is GeoTree && (r matches
                ApplyOutcome::NeedRadius { origin, candidates, radius, order }) ==> cands_view(
                (r->NeedRadius_candidates)@,
            ) == cand_rows(store.entries@[i].1->GeoTree_0.spec_points())
        }),
{
    let i = match store.find(cmd.arg_key.as_str()) {
        Some(i) => i,
        None => {
            return ApplyOutcome::Reply(crate::printer::print_err("KEY_NOT_FOUND"));
        },
    };
    let tree = match store.entries[i].1 {
        Data::GeoTree(ref t) => t,
        _ => {
            return ApplyOutcome::Reply(crate::printer::print_err("ERR Invalid key for data type"));
        },
    };
    proof {
        let ps = tree.spec_points();
        lemma_tag_midx(ps, cmd.member@);
        crate::geo::lemma_tag_index(ps, cmd.member@);
        lemma_geo_members_of(ps);
        assert(geo_members(*tree) =~= geo_members_of(ps));
    }
    let origin = match tree.get(cmd.member.as_str()) {
        Some(p) => p.get_cord(),
        None => {
            return ApplyOutcome::Reply(crate::printer::print_err("ERR member 1 not found"));
        },
    };
    proof {
        let ps = tree.spec_points();
        let ms = geo_members(*tree);
        assert(crate::geo::has_tag(ps, cmd.member@));
        lemma_geo_members_of(ps);
        assert(geo_members_of(ps)[crate::geo::tag_index(ps, cmd.member@)] == (
            ps[crate::geo::tag_index(ps, cmd.member@)].tag@,
            ps[crate::geo::tag_index(ps, cmd.member@)].spec_x(),
            ps[crate::geo::tag_index(ps, cmd.member@)].spec_y(),
        ));
        assert(origin == (ms[midx(ms, cmd.member@)].1, ms[midx(ms, cmd.member@)].2));
    }
    let candidates = all_candidates(tree);
    ApplyOutcome::NeedRadius {
        origin,
        candidates,
        radius: cmd.arg_radius,
        order: cmd.arg_order,
    }
}

/// Strict lexicographic order on byte strings.
pub open spec fn bytes_lt(a: Seq<u8>, b: Seq<u8>) -> bool
    decreases a.len(),
{
    if b.len() == 0 {
        false
    } else if a.len() == 0 {
        true
    } else if a[0] != b[0] {
        a[0] < b[0]
    } else {
        bytes_lt(a.skip(1), b.skip(1))
    }
}

fn bytes_lt_exec(a: &[u8], b: &[u8]) -> (r: bool)
    ensures
        r == bytes_lt(a@, b@),
    decreases a@.len(),
{
    if b.len() == 0 {
        false
    } else if a.len() == 0 {
        true
    } else if a[0] != b[0] {
        a[0] < b[0]
    } else {
        let ta = vstd::slice::slice_subrange(a, 1, a.len());
        let tb = vstd::slice::slice_subrange(b, 1, b.len());
        proof {
            assert(ta@ =~= a@.skip(1));
            assert(tb@ =~= b@.skip(1));
        }
        bytes_lt_exec(ta, tb)
    }
}

proof fn lemma_bytes_lt_irrefl(a: Seq<u8>)
    ensures
        !bytes_lt(a, a),
    decreases a.len(),
{
    if a.len() > 0 {
        lemma_bytes_lt_irrefl(a.skip(1));
    }
}

proof fn lemma_bytes_lt_trans(a: Seq<u8>, b: Seq<u8>, c: Seq<u8>)
    requires
        bytes_lt(a, b),
        bytes_lt(b, c),
    ensures
        bytes_lt(a, c),
    decreases a.len(),
{
    if a.len() > 0 && a[0] == b[0] && b[0] == c[0] {
        lemma_bytes_lt_trans(a.skip(1), b.skip(1), c.skip(1));
    }
}

/// The radius reply's ranking: distance first, the member's tag (by its
/// UTF-8 bytes) breaking ties.
pub open spec fn rank_lt(a: (i64, Seq<char>), b: (i64, Seq<char>)) -> bool {
    ||| a.0 < b.0
    ||| (a.0 == b.0 && bytes_lt(
        vstd::utf8::encode_utf8(a.1),
        vstd::utf8::encode_utf8(b.1),
    ))
}

/// Whether `a` comes before `b` under the requested direction.
pub open spec fn rank_before(a: (i64, Seq<char>), b: (i64, Seq<char>), asc: bool) -> bool {
    if asc {
        rank_lt(a, b)
    } else {
        rank_lt(b, a)
    }
}

proof fn lemma_rank_lt_trans(a: (i64, Seq<char>), b: (i64, Seq<char>), c: (i64, Seq<char>))
    requires
        rank_lt(a, b),
        rank_lt(b, c),
    ensures
        rank_lt(a, c),
{
    if a.0 == b.0 && b.0 == c.0 {
        lemma_bytes_lt_trans(
            vstd::utf8::encode_utf8(a.1),
            vstd::utf8::encode_utf8(b.1),
            vstd::utf8::encode_utf8(c.1),
        );
    }
}

proof fn lemma_rank_before_trans(
    a: (i64, Seq<char>),
    b: (i64, Seq<char>),
    c: (i64, Seq<char>),
    asc: bool,
)
    requires
        rank_before(a, b, asc),
        rank_before(b, c, asc),
    ensures
        rank_before(a, c, asc),
{
    if asc {
        lemma_rank_lt_trans(a, b, c);
    } else {
        lemma_rank_lt_trans(c, b, a);
    }
}

proof fn lemma_rank_before_irrefl(a: (i64, Seq<char>), asc: bool)
    ensures
        !rank_before(a, a, asc),
{
    lemma_bytes_lt_irrefl(vstd::utf8::encode_utf8(a.1));
}

/// The keyed reply rows: for each of the first `n` candidates whose
/// distance lies within the radius, its distance, its tag, and the row
/// `[tag, geohash, distance text]`, in candidate order.
pub open spec fn radius_keyed(
    cands: Seq<(Seq<char>, Seq<char>, i64, i64)>,
    dists: Seq<i64>,
    texts: Seq<Seq<char>>,
    radius: i64,
    n: int,
) -> Seq<(i64, Seq<char>, Seq<Seq<char>>)>
    decreases n,
{
    if n <= 0 {
        Seq::empty()
    } else {
        let pre = radius_keyed(cands, dists, texts, radius, n - 1);
        if dists[n - 1] <= radius {
            pre.push(
                (dists[n - 1], cands[n - 1].0, seq![cands[n - 1].0, cands[n - 1].1, texts[n - 1]]),
            )
        } else {
            pre
        }
    }
}

/// The reply rows of a keyed row sequence.
pub open spec fn rows_of(s: Seq<(i64, Seq<char>, Seq<Seq<char>>)>) -> Seq<Seq<Seq<char>>> {
    s.map_values(|t: (i64, Seq<char>, Seq<Seq<char>>)| t.2)
}

/// No later row ranks before an earlier one under the direction.
pub open spec fn rank_sorted(s: Seq<(i64, Seq<char>, Seq<Seq<char>>)>, asc: bool) -> bool {
    forall|i: int, j: int|
        0 <= i < j < s.len() ==> !rank_before(
            ((#[trigger] s[j]).0, s[j].1),
            ((#[trigger] s[i]).0, s[i].1),
            asc,
        )
}

/// The model of the selection working set.
pub open spec fn keyed_view(s: Seq<(i64, String, Vec<String>)>) -> Seq<
    (i64, Seq<char>, Seq<Seq<char>>),
> {
    s.map_values(
        |t: (i64, String, Vec<String>)| (t.0, t.1@, t.2@.map_values(|x: String| x@)),
    )
}

fn rank_before_exec(d1: i64, t1: &String, d2: i64, t2: &String, asc: bool) -> (r: bool)
    ensures
        r == rank_before((d1, t1@), (d2, t2@), asc),
{
    if asc {
        if d1 != d2 {
            d1 < d2
        } else {
            bytes_lt_exec(t1.as_str().as_bytes(), t2.as_str().as_bytes())
        }
    } else {
        if d1 != d2 {
            d2 < d1
        } else {
            bytes_lt_exec(t2.as_str().as_bytes(), t1.as_str().as_bytes())
        }
    }
}

/// Finishes a radius query: exactly the candidates whose distance lies
/// within the radius appear, each as the row `[tag, geohash, distance
/// text]`. Unordered, the rows keep candidate order; with ASC or DESC they
/// are a permutation sorted by distance, ties broken by the tag's bytes.
pub fn geo_radius_reply(
    candidates: &Vec<(String, String, i64, i64)>,
    dists_nm: &Vec<i64>,
    dist_texts: &Vec<String>,
    radius: i64,
    order: ArgOrder,
) -> (r: String)
    requires
        dists_nm@.len() == candidates@.len(),
        dist_texts@.len() == candidates@.len(),
    ensures
        ({
            let kept = radius_keyed(
                cands_view(candidates@),
                dists_nm@,
                dist_texts@.map_values(|s: String| s@),
                radius,
                candidates@.len() as int,
            );
            &&& (order is UNSPECIFIED ==> r@ == crate::printer::nested_arr_reply(rows_of(kept)))
            &&& (!(order is UNSPECIFIED) ==> exists|srt: Seq<(i64, Seq<char>, Seq<Seq<char>>)>|
                {
                    &&& #[trigger] srt.to_multiset() == kept.to_multiset()
                    &&& rank_sorted(srt, order is ASC)
                    &&& r@ == crate::printer::nested_arr_reply(rows_of(srt))
                })
        }),
{
    broadcast use vstd::seq_lib::group_to_multiset_ensures;
    broadcast use vstd::multiset::group_multiset_axioms;

    let ghost kept = radius_keyed(
        cands_view(candidates@),
        dists_nm@,
        dist_texts@.map_values(|s: String| s@),
        radius,
        candidates@.len() as int,
    );
    let mut keyed: Vec<(i64, String, Vec<String>)> = Vec::new();
    let mut k: usize = 0;
    while k < candidates.len()
        invariant
            k <= candidates@.len(),
            dists_nm@.len() == candidates@.len(),
            dist_texts@.len() == candidates@.len(),
            keyed_view(keyed@) == radius_keyed(
                cands_view(candidates@),
                dists_nm@,
                dist_texts@.map_values(|s: String| s@),
                radius,
                k as int,
            ),
        decreases candidates@.len() - k,
    {
        if dists_nm[k] <= radius {
            let ghost pre = keyed_view(keyed@);
            let mut row: Vec<String> = Vec::new();
            row.push(candidates[k].0.clone());
            row.push(candidates[k].1.clone());
            row.push(dist_texts[k].clone());
            let ghost rowv = row@.map_values(|x: String| x@);
            let tag = candidates[k].0.clone();
            keyed.push((dists_nm[k], tag, row));
            proof {
                assert(rowv =~= seq![
                    cands_view(candidates@)[k as int].0,
                    cands_view(candidates@)[k as int].1,
                    dist_texts@.map_values(|s: String| s@)[k as int],
                ]);
                assert(keyed_view(keyed@) =~= pre.push(
                    (dists_nm@[k as int], cands_view(candidates@)[k as int].0, rowv),
                ));
            }
        }
        k = k + 1;
    }
    proof {
        assert(keyed_view(keyed@) == kept);
    }
    let mut out: Vec<Vec<String>> = Vec::new();
    match order {
        ArgOrder::UNSPECIFIED => {
            let mut m: usize = 0;
            while m < keyed.len()
                invariant
                    m <= keyed@.len(),
                    keyed_view(keyed@) == kept,
                    out@.map_values(|v: Vec<String>| v@.map_values(|s: String| s@)) == rows_of(
                        kept,
                    ).take(m as int),
                decreases keyed@.len() - m,
            {
                let ghost pre = out@.map_values(|v: Vec<String>| v@.map_values(|s: String| s@));
                let row = clone_row(&keyed[m].2);
                let ghost rowv = row@.map_values(|s: String| s@);
                out.push(row);
                proof {
                    assert(out@.map_values(|v: Vec<String>| v@.map_values(|s: String| s@))
                        =~= pre.push(rowv));
                    assert(rowv == kept[m as int].2);
                    assert(rows_of(kept).take(m + 1) =~= rows_of(kept).take(m as int).push(
                        rows_of(kept)[m as int],
                    ));
                }
                m = m + 1;
            }
            proof {
                assert(rows_of(kept).take(kept.len() as int) =~= rows_of(kept));
            }
            crate::printer::print_nested_arr(out)
        },
        _ => {
            let asc = match order {
                ArgOrder::ASC => true,
                _ => false,
            };
            let ghost mut done: Seq<(i64, Seq<char>, Seq<Seq<char>>)> = Seq::empty();
            proof {
                assert(done.to_multiset().add(keyed_view(keyed@).to_multiset()) =~= kept
                    .to_multiset());
            }
            while keyed.len() > 0
                invariant
                    done.to_multiset().add(keyed_view(keyed@).to_multiset()) == kept.to_multiset(),
                    rank_sorted(done, asc),
                    forall|x: int, y: int|
                        0 <= x < done.len() && 0 <= y < keyed_view(keyed@).len() ==> !rank_before(
                            ((#[trigger] keyed_view(keyed@)[y]).0, keyed_view(keyed@)[y].1),
                            ((#[trigger] done[x]).0, done[x].1),
                            asc,
                        ),
                    out@.map_values(|v: Vec<String>| v@.map_values(|s: String| s@)) == rows_of(
                        done,
                    ),
                decreases keyed@.len(),
            {
                let ghost kv0 = keyed_view(keyed@);
                let mut best: usize = 0;
                let mut j: usize = 1;
                proof {
                    lemma_rank_before_irrefl((kv0[0].0, kv0[0].1), asc);
                }
                while j < keyed.len()
                    invariant
                        keyed@.len() > 0,
                        kv0 == keyed_view(keyed@),
                        best < keyed@.len(),
                        j <= keyed@.len(),
                        forall|y: int|
                            0 <= y < j ==> !rank_before(
                                ((#[trigger] kv0[y]).0, kv0[y].1),
                                (kv0[best as int].0, kv0[best as int].1),
                                asc,
                            ),
                    decreases keyed@.len() - j,
                {
                    let better = rank_before_exec(
                        keyed[j].0,
                        &keyed[j].1,
                        keyed[best].0,
                        &keyed[best].1,
                        asc,
                    );
                    if better {
                        proof {
                            assert forall|y: int| 0 <= y < j + 1 implies !rank_before(
                                ((#[trigger] kv0[y]).0, kv0[y].1),
                                (kv0[j as int].0, kv0[j as int].1),
                                asc,
                            ) by {
                                if y == j {
                                    lemma_rank_before_irrefl((kv0[y].0, kv0[y].1), asc);
                                } else if rank_before(
                                    (kv0[y].0, kv0[y].1),
                                    (kv0[j as int].0, kv0[j as int].1),
                                    asc,
                                ) {
                                    lemma_rank_before_trans(
                                        (kv0[y].0, kv0[y].1),
                                        (kv0[j as int].0, kv0[j as int].1),
                                        (kv0[best as int].0, kv0[best as int].1),
                                        asc,
                                    );
                                }
                            }
                        }
                        best = j;
                    }
                    j = j + 1;
                }
                let ghost e = kv0[best as int];
                let (_d, _tag, row) = keyed.remove(best);
                let ghost rowv = row@.map_values(|s: String| s@);
                let ghost outpre = out@.map_values(|v: Vec<String>| v@.map_values(|s: String| s@));
                out.push(row);
                proof {
                    let kv1 = keyed_view(keyed@);
                    assert(kv1 =~= kv0.remove(best as int));
                    vstd::seq_lib::to_multiset_remove(kv0, best as int);
                    assert(kv0.contains(e));
                    vstd::seq_lib::to_multiset_contains(kv0, e);
                    assert(kv0.to_multiset().count(e) > 0);
                    assert(kv0.to_multiset() =~= kv1.to_multiset().insert(e));
                    assert(rowv == e.2);
                    let dn = done.push(e);
                    vstd::seq_lib::to_multiset_build(done, e);
                    assert(dn.to_multiset() =~= done.to_multiset().insert(e));
                    assert(dn.to_multiset().add(kv1.to_multiset()) =~= kept.to_multiset());
                    assert forall|i: int, j2: int| 0 <= i < j2 < dn.len() implies !rank_before(
                        ((#[trigger] dn[j2]).0, dn[j2].1),
                        ((#[trigger] dn[i]).0, dn[i].1),
                        asc,
                    ) by {
                        if j2 < done.len() {
                            assert(dn[i] == done[i] && dn[j2] == done[j2]);
                        } else {
                            assert(dn[j2] == e && dn[i] == done[i]);
                            assert(!rank_before(
                                ((kv0[best as int]).0, kv0[best as int].1),
                                ((done[i]).0, done[i].1),
                                asc,
                            ));
                        }
                    }
                    assert forall|x: int, y: int|
                        0 <= x < dn.len() && 0 <= y < kv1.len() implies !rank_before(
                        ((#[trigger] kv1[y]).0, kv1[y].1),
                        ((#[trigger] dn[x]).0, dn[x].1),
                        asc,
                    ) by {
                        let y0: int = if y < best { y } else { y + 1 };
                        assert(kv1[y] == kv0[y0]);
                        if x < done.len() {
                            assert(dn[x] == done[x]);
                            assert(!rank_before(
                                ((kv0[y0]).0, kv0[y0].1),
                                ((done[x]).0, done[x].1),
                                asc,
                            ));
                        } else {
                            assert(dn[x] == e);
                            assert(!rank_before(
                                ((kv0[y0]).0, kv0[y0].1),
                                (kv0[best as int].0, kv0[best as int].1),
                                asc,
                            ));
                        }
                    }
                    assert(rows_of(dn) =~= rows_of(done).push(e.2));
                    assert(out@.map_values(|v: Vec<String>| v@.map_values(|s: String| s@))
                        =~= outpre.push(rowv));
                    done = dn;
                }
            }
            let result = crate::printer::print_nested_arr(out);
            proof {
                assert(keyed_view(keyed@).len() == 0);
                assert(keyed_view(keyed@).to_multiset() =~= vstd::multiset::Multiset::<
                    (i64, Seq<char>, Seq<Seq<char>>),
                >::empty());
                assert(done.to_multiset() =~= kept.to_multiset());
                assert(result@ == crate::printer::nested_arr_reply(rows_of(done)));
                assert(exists|srt: Seq<(i64, Seq<char>, Seq<Seq<char>>)>|
                    {
                        &&& #[trigger] srt.to_multiset() == kept.to_multiset()
                        &&& rank_sorted(srt, order is ASC)
                        &&& result@ == crate::printer::nested_arr_reply(rows_of(srt))
                    });
            }
            result
        },
    }
}

fn clone_row(v: &Vec<String>) -> (r: Vec<String>)
    ensures
        r@.map_values(|s: String| s@) == v@.map_values(|s: String| s@),
{
    let mut out: Vec<String> = Vec::new();
    let mut q: usize = 0;
    while q < v.len()
        invariant
            q <= v@.len(),
            out@.map_values(|s: String| s@) =~= v@.map_values(|s: String| s@).take(q as int),
        decreases v@.len() - q,
    {
        let ghost pre = out@.map_values(|s: String| s@);
        out.push(v[q].clone());
        q = q + 1;
        proof {
            assert(out@.map_values(|s: String| s@) =~= pre.push(out@.last()@));
            assert(out@.map_values(|s: String| s@) =~= v@.map_values(|s: String| s@).take(
                q as int,
            ));
        }
    }
    proof {
        assert(v@.map_values(|s: String| s@).take(v@.len() as int) =~= v@.map_values(
            |s: String| s@,
        ));
    }
    out
}

/// What an authorized command leaves and replies: one clause per variant,
/// each the matching command function's contract. Guard failures that the
/// dispatcher checks at run time (an item count past `i64::MAX`, a
/// coordinate off the globe, a negative expiry, an ill-formed value) are
/// one error reply with nothing changed.
pub open spec fn apply_post(
    s0: Store,
    s1: Store,
    cmd: Command,
    now: i64,
    r: ApplyOutcome,
) -> bool {
    match cmd {
        Command::Auth(_) => r matches ApplyOutcome::Reply(e) && e@ == error_reply("ERR"@) && s1
            == s0,
        Command::Ping(_) => r matches ApplyOutcome::Reply(s) && s@ == simple_reply("PONG"@) && s1
            == s0,
        Command::RandomKey(_) => s1 == s0 && (r matches ApplyOutcome::Reply(s) && (exists|
            k: Seq<char>,
        |
            s@ == bulk_reply(k) && k.len() == 25 && (forall|i: int|
                0 <= i < k.len() ==> is_alnum_char(#[trigger] k[i])))),
        Command::Info(_) => s1 == s0 && (r matches ApplyOutcome::Reply(s) && s@ == bulk_reply(
            seq!['{', '"', 'k', 'e', 'y', 's', '"', ':'] + dec_chars(s0.entries@.len())
                + seq!['}'],
        )),
        Command::DBSize(_) => s1 == s0 && (if s0.entries@.len() <= i64::MAX {
            r matches ApplyOutcome::Reply(s) && s@ == int_reply(s0.entries@.len() as int)
        } else {
            r matches ApplyOutcome::Reply(s) && s@ == error_reply("ERR"@)
        }),
        Command::SetKey(c) => if !(c.arg_value is GeoTree) {
            r matches ApplyOutcome::Reply(s) && ({
                &&& s@ == simple_reply("OK"@)
                &&& s1.val(c.arg_key@) == Some(data_model(c.arg_value))
                &&& forall|k: Seq<char>| k != c.arg_key@ ==> s1.val(k) == s0.val(k)
                &&& c.arg_exp > 0 && now + c.arg_exp <= i64::MAX ==> s1.expiry(c.arg_key@)
                    == Some((now + c.arg_exp) as i64)
                &&& c.arg_exp == 0 ==> s1.expiry(c.arg_key@) is None
                &&& forall|k: Seq<char>| k != c.arg_key@ ==> s1.expiry(k) == s0.expiry(k)
            })
        } else {
            r matches ApplyOutcome::Reply(s) && s@ == error_reply("ERR"@) && s1 == s0
        },
        Command::GetSet(c) => if !(c.arg_value is GeoTree) {
            r matches ApplyOutcome::Reply(s) && ({
                &&& s1.val(c.arg_key@) == Some(data_model(c.arg_value))
                &&& forall|k: Seq<char>| k != c.arg_key@ ==> s1.val(k) == s0.val(k)
                &&& (s0.val(c.arg_key@) matches Some(m) ==> s@ == data_reply(m))
                &&& (s0.val(c.arg_key@) is None ==> s@ == simple_reply("nil"@))
            })
        } else {
            r matches ApplyOutcome::Reply(s) && s@ == error_reply("ERR"@) && s1 == s0
        },
        Command::Get(c) => r matches ApplyOutcome::Reply(s) && ({
            &&& s0.live(c.arg_key@, now) ==> s1 == s0 && s@ == data_reply(s0.val(c.arg_key@)->0)
            &&& !s0.live(c.arg_key@, now) ==> s@ == error_reply("KEY_NOT_FOUND"@) && s1.val(
                c.arg_key@,
            ) is None
            &&& forall|k: Seq<char>| k != c.arg_key@ ==> s1.val(k) == s0.val(k)
            &&& forall|k: Seq<char>| k != c.arg_key@ ==> s1.expiry(k) == s0.expiry(k)
        }),
        Command::Del(c) => r matches ApplyOutcome::Reply(s) && ({
            &&& s1.val(c.arg_key@) is None
            &&& forall|k: Seq<char>| k != c.arg_key@ ==> s1.val(k) == s0.val(k)
            &&& (s0.val(c.arg_key@) is Some ==> s@ == int_reply(1))
            &&& (s0.val(c.arg_key@) is None ==> s@ == int_reply(0))
        }),
        Command::Persist(c) => r matches ApplyOutcome::Reply(s) && ({
            &&& s1.entries@ == s0.entries@
            &&& s1.expiry(c.arg_key@) is None
            &&& forall|k: Seq<char>| k != c.arg_key@ ==> s1.expiry(k) == s0.expiry(k)
            &&& (s0.expiry(c.arg_key@) is Some ==> s@ == int_reply(1))
            &&& (s0.expiry(c.arg_key@) is None ==> s@ == int_reply(0))
        }),
        Command::Ttl(c) => r matches ApplyOutcome::Reply(s) && ({
            &&& !s0.live(c.arg_key@, now) ==> s@ == int_reply(-1)
            &&& s0.live(c.arg_key@, now) ==> s@ == (match s0.expiry(c.arg_key@) {
                Some(e) => if e - now > i64::MAX {
                    int_reply(i64::MAX as int)
                } else {
                    int_reply(e - now)
                },
                None => int_reply(-1),
            })
        }),
        Command::Expire(c) => if c.arg_value >= 0 {
            r matches ApplyOutcome::Reply(s) && ({
                &&& !s0.live(c.arg_key@, now) ==> s@ == int_reply(0)
                &&& s0.live(c.arg_key@, now) && now + c.arg_value <= i64::MAX ==> s@ == int_reply(
                    1,
                ) && s1.expiry(c.arg_key@) == Some((now + c.arg_value) as i64)
            })
        } else {
            r matches ApplyOutcome::Reply(s) && s@ == error_reply("ERR"@) && s1 == s0
        },
        Command::ExpireAt(c) => r matches ApplyOutcome::Reply(s) && ({
            &&& !s0.live(c.arg_key@, now) ==> s@ == int_reply(0)
            &&& s0.live(c.arg_key@, now) ==> s@ == int_reply(1) && s1.expiry(c.arg_key@) == Some(
                c.arg_value,
            )
        }),
        Command::IncrBy(c) => r matches ApplyOutcome::Reply(s) && incr_post(
            s0,
            s1,
            c.arg_key@,
            c.arg_value,
            s@,
        ),
        Command::Keys(c) => s1 == s0 && (r matches ApplyOutcome::Reply(s) && ({
            &&& !glob_valid(c.pattern@) ==> s@ == error_reply("ERR invalid pattern"@)
            &&& glob_valid(c.pattern@) ==> s@ == crate::printer::arr_reply(
                matched_keys(s0.entries@, c.pattern@),
            )
        })),
        Command::Exists(c) => s1 == s0 && (r matches ApplyOutcome::Reply(s) && (if c.keys@.len()
            <= i64::MAX {
            s@ == int_reply(live_count(s0, c.keys@.map_values(|t: String| t@), now))
        } else {
            s@ == error_reply("ERR"@)
        })),
        Command::GeoAdd(c) => if c.items@.len() <= i64::MAX && geo_coords_ok(c.items@) {
            r matches ApplyOutcome::Reply(s) && ({
                let items = crate::command::geo_items_model(c.items@);
                match s0.val(c.arg_key@) {
                    Some(DataModel::Geo(ms)) => {
                        &&& s@ == int_reply(c.items@.len() as int)
                        &&& s1.val(c.arg_key@) == Some(DataModel::Geo(m_upsert_all(ms, items)))
                        &&& forall|k: Seq<char>| k != c.arg_key@ ==> s1.val(k) == s0.val(k)
                    },
                    None => {
                        &&& s@ == int_reply(c.items@.len() as int)
                        &&& s1.val(c.arg_key@) == Some(
                            DataModel::Geo(
                                m_upsert_all(Seq::<(Seq<char>, i64, i64)>::empty(), items),
                            ),
                        )
                        &&& forall|k: Seq<char>| k != c.arg_key@ ==> s1.val(k) == s0.val(k)
                    },
                    Some(_) => s@ == error_reply("ERR Invalid key for data type"@) && (forall|
                        k: Seq<char>,
                    |
                        s1.val(k) == s0.val(k)),
                }
            })
        } else {
            r matches ApplyOutcome::Reply(s) && s@ == error_reply("ERR"@) && s1 == s0
        },
        Command::GeoHash(c) => s1 == s0 && (r matches ApplyOutcome::Reply(s) && ({
            &&& (match s0.val(c.arg_key@) {
                Some(DataModel::Geo(_)) => true,
                Some(_) => s@ == error_reply("ERR"@),
                None => s@ == error_reply("KEY_NOT_FOUND"@),
            })
            &&& ({
                let i = kidx(s0.entries@, c.arg_key@);
                khas(s0.entries@, c.arg_key@) && s0.entries@[i].1 is GeoTree
                    ==> s@ == crate::printer::arr_reply(
                    hash_rows(
                        s0.entries@[i].1->GeoTree_0.spec_points(),
                        c.items@.map_values(|x: String| x@),
                    ),
                )
            })
        })),
        Command::GeoPos(c) => s1 == s0 && (r matches ApplyOutcome::Reply(s) && ({
            &&& (match s0.val(c.arg_key@) {
                Some(DataModel::Geo(_)) => true,
                Some(_) => s@ == error_reply("ERR Invalid key for data type"@),
                None => s@ == error_reply("KEY_NOT_FOUND"@),
            })
            &&& ({
                let i = kidx(s0.entries@, c.arg_key@);
                khas(s0.entries@, c.arg_key@) && s0.entries@[i].1 is GeoTree
                    ==> s@ == crate::printer::nested_arr_reply(
                    pos_rows(
                        s0.entries@[i].1->GeoTree_0.spec_points(),
                        c.items@.map_values(|x: String| x@),
                    ),
                )
            })
        })),
        Command::GeoJson(c) => s1 == s0 && (r matches ApplyOutcome::Reply(s) && ({
            &&& (match s0.val(c.arg_key@) {
                Some(DataModel::Geo(_)) => true,
                Some(_) => s@ == error_reply("ERR Invalid key for data type"@),
                None => s@ == error_reply("KEY_NOT_FOUND"@),
            })
            &&& ({
                let i = kidx(s0.entries@, c.arg_key@);
                khas(s0.entries@, c.arg_key@) && s0.entries@[i].1 is GeoTree ==> s@ == bulk_reply(
                    jser(
                        fc_model(
                            selected_features(
                                s0.entries@[i].1->GeoTree_0.spec_points(),
                                c.items@.map_values(|x: String| x@),
                            ),
                        ),
                    ),
                )
            })
        })),
        Command::GeoRem(c) => if c.items@.len() <= i64::MAX {
            r matches ApplyOutcome::Reply(s) && ({
                let tags = c.items@.map_values(|x: String| x@);
                match s0.val(c.arg_key@) {
                    Some(DataModel::Geo(ms)) => {
                        &&& s@ == int_reply(m_remove_all(ms, tags).1)
                        &&& s1.val(c.arg_key@) == Some(DataModel::Geo(m_remove_all(ms, tags).0))
                        &&& forall|k: Seq<char>| k != c.arg_key@ ==> s1.val(k) == s0.val(k)
                    },
                    Some(_) => s@ == int_reply(0) && (forall|k: Seq<char>|
                        s1.val(k) == s0.val(k)),
                    None => s@ == int_reply(0) && s1 == s0,
                }
            })
        } else {
            r matches ApplyOutcome::Reply(s) && s@ == error_reply("ERR"@) && s1 == s0
        },
        Command::GeoDel(c) => r matches ApplyOutcome::Reply(s) && (match s0.val(c.arg_key@) {
            Some(DataModel::Geo(_)) => s@ == int_reply(1) && s1.val(c.arg_key@) is None && forall|
                k: Seq<char>,
            |
                k != c.arg_key@ ==> s1.val(k) == s0.val(k),
            Some(_) => s@ == error_reply("ERR Invalid key for data type"@) && s1 == s0,
            None => s@ == error_reply("KEY_NOT_FOUND"@) && s1 == s0,
        }),
        Command::GeoRadius(c) => s1 == s0 && ({
            &&& (match s0.val(c.arg_key@) {
                Some(DataModel::Geo(_)) => true,
                Some(_) => r matches ApplyOutcome::Reply(e) && e@ == error_reply(
                    "ERR Invalid key for data type"@,
                ),
                None => r matches ApplyOutcome::Reply(e) && e@ == error_reply("KEY_NOT_FOUND"@),
            })
            &&& ({
                let i = kidx(s0.entries@, c.arg_key@);
                khas(s0.entries@, c.arg_key@) && s0.entries@[i].1 is GeoTree ==> (r matches
                    ApplyOutcome::NeedRadius { origin, candidates, radius, order } && origin == (
                    c.arg_lat,
                    c.arg_lng,
                ) && cands_view(candidates@) == cand_rows(
                    s0.entries@[i].1->GeoTree_0.spec_points(),
                ) && radius == c.arg_radius && order == c.arg_order)
            })
        }),
        Command::GeoRadiusByMember(c) => s1 == s0 && ({
            &&& (match s0.val(c.arg_key@) {
                Some(DataModel::Geo(ms)) => if mhas(ms, c.member@) {
                    r matches ApplyOutcome::NeedRadius { origin, candidates, radius, order }
                        && origin == (ms[midx(ms, c.member@)].1, ms[midx(ms, c.member@)].2)
                        && radius == c.arg_radius && order == c.arg_order
                } else {
                    r matches ApplyOutcome::Reply(e) && e@ == error_reply(
                        "ERR member 1 not found"@,
                    )
                },
                Some(_) => r matches ApplyOutcome::Reply(e) && e@ == error_reply(
                    "ERR Invalid key for data type"@,
                ),
                None => r matches ApplyOutcome::Reply(e) && e@ == error_reply("KEY_NOT_FOUND"@),
            })
            &&& ({
                let i = kidx(s0.entries@, c.arg_key@);
                khas(s0.entries@, c.arg_key@) && s0.entries@[i].1 is GeoTree && (r matches
                    ApplyOutcome::NeedRadius { origin, candidates, radius, order }) ==> cands_view(
                    (r->NeedRadius_candidates)@,
                ) == cand_rows(s0.entries@[i].1->GeoTree_0.spec_points())
            })
        }),
        Command::GeoDist(c) => s1 == s0 && (match s0.val(c.arg_key@) {
            Some(DataModel::Geo(ms)) => if mhas(ms, c.arg_mem_1@) {
                if mhas(ms, c.arg_mem_2@) {
                    r matches ApplyOutcome::NeedDist { a, b, unit } && a == (
                        ms[midx(ms, c.arg_mem_1@)].1,
                        ms[midx(ms, c.arg_mem_1@)].2,
                    ) && b == (ms[midx(ms, c.arg_mem_2@)].1, ms[midx(ms, c.arg_mem_2@)].2)
                        && unit == c.arg_unit
                } else {
                    r matches ApplyOutcome::Reply(e) && e@ == error_reply(
                        "ERR member 2 not found"@,
                    )
                }
            } else {
                r matches ApplyOutcome::Reply(e) && e@ == error_reply("ERR member 1 not found"@)
            },
            Some(_) => r matches ApplyOutcome::Reply(e) && e@ == error_reply("ERR"@),
            None => r matches ApplyOutcome::Reply(e) && e@ == error_reply("KEY_NOT_FOUND"@),
        }),
        Command::JSetRaw(c) => r matches ApplyOutcome::Reply(s) && ({
            let doc = crate::json::spec_json_doc(vstd::utf8::encode_utf8(c.arg_value@));
            match doc {
                Some(m) => {
                    &&& s@ == simple_reply("OK"@)
                    &&& s1.val(c.arg_key@) == Some(DataModel::Json(m))
                    &&& forall|k: Seq<char>| k != c.arg_key@ ==> s1.val(k) == s0.val(k)
                },
                None => s@ == error_reply("ERR invalid json"@) && s1 == s0,
            }
        }),
        Command::JSet(c) => r matches ApplyOutcome::Reply(s) && ({
            let prior = match s0.val(c.arg_key@) {
                Some(DataModel::Json(m)) => Some(m),
                None => Some(JsonModel::Null),
                _ => None,
            };
            match prior {
                Some(m0) => match jset_all(
                    m0,
                    crate::command::jset_items_model(c.arg_set_items@),
                    '.',
                ) {
                    Some(m2) => {
                        &&& s@ == simple_reply("OK"@)
                        &&& s1.val(c.arg_key@) == Some(DataModel::Json(m2))
                        &&& forall|k: Seq<char>| k != c.arg_key@ ==> s1.val(k) == s0.val(k)
                    },
                    None => s@ == error_reply("ERR"@) && s1 == s0,
                },
                None => s@ == error_reply("ERR Invalid key for data type"@) && s1 == s0,
            }
        }),
        Command::JMerge(c) => r matches ApplyOutcome::Reply(s) && ({
            let parsed = crate::json::spec_json_doc(vstd::utf8::encode_utf8(c.arg_value@));
            match parsed {
                Some(b) => match s0.val(c.arg_key@) {
                    Some(DataModel::Json(a)) => {
                        &&& s@ == simple_reply("OK"@)
                        &&& s1.val(c.arg_key@) == Some(
                            DataModel::Json(crate::json::jmerge_model(a, b)),
                        )
                        &&& forall|k: Seq<char>| k != c.arg_key@ ==> s1.val(k) == s0.val(k)
                    },
                    None | Some(DataModel::Null) => {
                        &&& s@ == simple_reply("OK"@)
                        &&& s1.val(c.arg_key@) == Some(DataModel::Json(b))
                        &&& forall|k: Seq<char>| k != c.arg_key@ ==> s1.val(k) == s0.val(k)
                    },
                    Some(_) => s@ == error_reply("ERR Invalid key for data type"@) && s1 == s0,
                },
                None => s@ == error_reply("ERR invalid json"@) && s1 == s0,
            }
        }),
        Command::JGet(c) => s1 == s0 && (r matches ApplyOutcome::Reply(s) && (match s0.val(
            c.arg_key@,
        ) {
            Some(DataModel::Json(m)) => match c.arg_dot_path {
                Some(p) => {
                    let got = match crate::json::jget_path(
                        m,
                        crate::json::spec_split(p@, '.'),
                    ) {
                        Some(v) => v,
                        None => JsonModel::Null,
                    };
                    s@ == (match got {
                        JsonModel::Str(x) => bulk_reply(x),
                        JsonModel::Num(n) => bulk_reply(n),
                        other => bulk_reply(jser(other)),
                    })
                },
                None => s@ == bulk_reply(jser(m)),
            },
            Some(_) => s@ == error_reply("ERR Invalid key for data type"@),
            None => s@ == error_reply("KEY_NOT_FOUND"@),
        })),
        Command::JPath(c) => s1 == s0 && (r matches ApplyOutcome::Reply(s) && (match s0.val(
            c.arg_key@,
        ) {
            Some(DataModel::Json(m)) => if m is Null {
                s@ == bulk_reply(Seq::<char>::empty())
            } else {
                match jsonpath_of(jser(m), c.arg_selector@) {
                    None => s@ == bulk_reply(Seq::<char>::empty()),
                    Some(x) => match crate::json::spec_json_doc(vstd::utf8::encode_utf8(x)) {
                        Some(JsonModel::Arr(elems)) => s@ == crate::printer::arr_reply(
                            elems.map_values(|e: JsonModel| jser(e)),
                        ),
                        _ => s@ == bulk_reply(Seq::<char>::empty()),
                    },
                }
            },
            Some(_) => s@ == error_reply("ERR Invalid key for data type"@),
            None => s@ == error_reply("KEY_NOT_FOUND"@),
        })),
        Command::JDel(c) => r matches ApplyOutcome::Reply(s) && (match s0.val(c.arg_key@) {
            Some(DataModel::Json(_)) => s@ == int_reply(1) && s1.val(c.arg_key@) is None && forall|
                k: Seq<char>,
            |
                k != c.arg_key@ ==> s1.val(k) == s0.val(k),
            Some(_) => s@ == error_reply("ERR Invalid key for data type"@) && s1 == s0,
            None => s@ == error_reply("KEY_NOT_FOUND"@) && s1 == s0,
        }),
        Command::JRem(c) => if c.arg_paths@.len() <= i64::MAX {
            r matches ApplyOutcome::Reply(s) && ({
                let prior = match s0.val(c.arg_key@) {
                    Some(DataModel::Json(m)) => Some(m),
                    None => Some(JsonModel::Null),
                    _ => None,
                };
                match prior {
                    Some(m0) => {
                        let out = jrem_all(m0, c.arg_paths@.map_values(|x: String| x@), '.');
                        &&& s@ == int_reply(out.1)
                        &&& s1.val(c.arg_key@) == Some(DataModel::Json(out.0))
                        &&& forall|k: Seq<char>| k != c.arg_key@ ==> s1.val(k) == s0.val(k)
                    },
                    None => s@ == error_reply("ERR Invalid key for data type"@) && s1 == s0,
                }
            })
        } else {
            r matches ApplyOutcome::Reply(s) && s@ == error_reply("ERR"@) && s1 == s0
        },
        Command::JIncrBy(c) => r matches ApplyOutcome::Reply(s) && jincr_post(
            s0,
            s1,
            c.arg_key@,
            c.arg_path@,
            c.arg_increment_value,
            s@,
        ),
        Command::JIncrByFloat(c) => r matches ApplyOutcome::Reply(s) && jincrf_post(
            s0,
            s1,
            c.arg_key@,
            c.arg_path@,
            c.arg_increment_value@,
            s@,
        ),
    }
}

/// What AUTH leaves in the session and replies: the client's key is
/// recorded; with authentication off the reply is OK; otherwise the session
/// is authenticated exactly when the key matches the configured one.
pub open spec fn auth_reply_post(c0: Context, c1: Context, pw: Seq<char>, s: Seq<char>) -> bool {
    &&& c1.client_auth_key matches Some(k) && k@ == pw
    &&& c1.auth_key == c0.auth_key
    &&& c1.auth_is_required == c0.auth_is_required
    &&& (!c0.auth_is_required ==> s == simple_reply("OK"@))
    &&& (c0.auth_is_required ==> ({
        let ok = c0.auth_key matches Some(k2) && k2@ == pw;
        &&& c1.client_authenticated == ok
        &&& (ok ==> s == simple_reply("OK"@))
        &&& (!ok ==> s == error_reply("ERR auth failed"@))
    }))
}

/// Everything `apply` promises, in one predicate for callers that run a
/// command from a log entry: the authentication refusal, the per-command
/// outcome for an authorized session, and AUTH's own effect on the session.
pub open spec fn apply_full_post(
    s0: Store,
    s1: Store,
    c0: Context,
    c1: Context,
    cmd: Command,
    now: i64,
    r: ApplyOutcome,
) -> bool {
    &&& (!(cmd is Auth) && !crate::command::spec_auth_ok(c0) ==> (r matches ApplyOutcome::Reply(e)
        && e@ == error_reply("ERR auth failed"@) && s1 == s0))
    &&& (!(cmd is Auth) && crate::command::spec_auth_ok(c0) ==> apply_post(s0, s1, cmd, now, r))
    &&& (cmd is Auth ==> s1 == s0)
    &&& (cmd matches Command::Auth(a) ==> (r matches ApplyOutcome::Reply(s) && auth_reply_post(
        c0,
        c1,
        a.arg_password@,
        s@,
    )))
}

/// Runs one command against the store behind the authentication gate:
/// when authentication is required and the session's key does not match,
/// the auth error is returned and nothing runs; AUTH itself bypasses the
/// gate. For an authorized session the outcome is the matching command
/// function's, clause for clause; the engine reads no clock and, outside
/// RANDOMKEY's reply, no randomness.
#[verifier::rlimit(100)]
pub fn apply(store: &mut Store, context: &mut Context, cmd: &Command, now: i64) -> (r: ApplyOutcome)
    requires
        old(store).wf(),
    ensures
        final(store).wf(),
        !(cmd is Auth) && !crate::command::spec_auth_ok(*old(context)) ==> (r matches
            ApplyOutcome::Reply(e) && e@ == error_reply("ERR auth failed"@) && *final(store)
            == *old(store)),
        !(cmd is Auth) && crate::command::spec_auth_ok(*old(context)) ==> apply_post(
            *old(store),
            *final(store),
            *cmd,
            now,
            r,
        ),
        cmd is Auth ==> *final(store) == *old(store),
        cmd matches Command::Auth(a) ==> (r matches ApplyOutcome::Reply(s) && auth_reply_post(
            *old(context),
            *final(context),
            a.arg_password@,
            s@,
        )),
{
    if let Command::Auth(ref a) = *cmd {
        return ApplyOutcome::Reply(auth(context, a));
    }
    if !crate::command::auth_ok(context) {
        return ApplyOutcome::Reply(crate::printer::print_err("ERR auth failed"));
    }
    match *cmd {
        Command::Auth(_) => ApplyOutcome::Reply(crate::printer::print_err("ERR")),
        Command::Ping(_) => ApplyOutcome::Reply(crate::printer::print_pong()),
        Command::RandomKey(ref c) => ApplyOutcome::Reply(random_key(c)),
        Command::Info(ref c) => ApplyOutcome::Reply(info(store, c)),
        Command::DBSize(ref c) => {
            if store.entries.len() as u64 > i64::MAX as u64 {
                return ApplyOutcome::Reply(crate::printer::print_err("ERR"));
            }
            ApplyOutcome::Reply(db_size(store, c))
        },
        Command::SetKey(ref c) => {
            if !data_wf_exec(&c.arg_value) {
                return ApplyOutcome::Reply(crate::printer::print_err("ERR"));
            }
            ApplyOutcome::Reply(set(store, c, now))
        },
        Command::GetSet(ref c) => {
            if !data_wf_exec(&c.arg_value) {
                return ApplyOutcome::Reply(crate::printer::print_err("ERR"));
            }
            ApplyOutcome::Reply(get_set(store, c))
        },
        Command::Get(ref c) => ApplyOutcome::Reply(get(store, c, now)),
        Command::Del(ref c) => ApplyOutcome::Reply(del(store, c)),
        Command::Persist(ref c) => ApplyOutcome::Reply(persist(store, c)),
        Command::Ttl(ref c) => ApplyOutcome::Reply(ttl_cmd(store, c, now)),
        Command::Expire(ref c) => {
            if c.arg_value < 0 {
                return ApplyOutcome::Reply(crate::printer::print_err("ERR"));
            }
            ApplyOutcome::Reply(expire(store, c, now))
        },
        Command::ExpireAt(ref c) => ApplyOutcome::Reply(expire_at(store, c, now)),
        Command::IncrBy(ref c) => ApplyOutcome::Reply(incr_by(store, c)),
        Command::Keys(ref c) => ApplyOutcome::Reply(keys(store, c)),
        Command::Exists(ref c) => {
            if c.keys.len() as u64 > i64::MAX as u64 {
                return ApplyOutcome::Reply(crate::printer::print_err("ERR"));
            }
            ApplyOutcome::Reply(exists_cmd(store, c, now))
        },
        Command::GeoAdd(ref c) => {
            if c.items.len() as u64 > i64::MAX as u64 {
                return ApplyOutcome::Reply(crate::printer::print_err("ERR"));
            }
            if !coords_ok(&c.items) {
                return ApplyOutcome::Reply(crate::printer::print_err("ERR"));
            }
            ApplyOutcome::Reply(geo_add(store, c))
        },
        Command::GeoHash(ref c) => ApplyOutcome::Reply(geo_hash(store, c)),
        Command::GeoPos(ref c) => ApplyOutcome::Reply(geo_pos(store, c)),
        Command::GeoJson(ref c) => ApplyOutcome::Reply(geo_json(store, c)),
        Command::GeoRem(ref c) => {
            if c.items.len() as u64 > i64::MAX as u64 {
                return ApplyOutcome::Reply(crate::printer::print_err("ERR"));
            }
            ApplyOutcome::Reply(geo_remove(store, c))
        },
        Command::GeoDel(ref c) => ApplyOutcome::Reply(geo_del(store, c)),
        Command::GeoRadius(ref c) => geo_radius(store, c),
        Command::GeoRadiusByMember(ref c) => geo_radius_by_member(store, c),
        Command::GeoDist(ref c) => geo_dist(store, c),
        Command::JSetRaw(ref c) => ApplyOutcome::Reply(jset_raw(store, c)),
        Command::JSet(ref c) => ApplyOutcome::Reply(jset(store, c)),
        Command::JMerge(ref c) => ApplyOutcome::Reply(jmerge(store, c)),
        Command::JGet(ref c) => ApplyOutcome::Reply(jget(store, c)),
        Command::JPath(ref c) => ApplyOutcome::Reply(jpath(store, c)),
        Command::JDel(ref c) => ApplyOutcome::Reply(jdel(store, c)),
        Command::JRem(ref c) => {
            if c.arg_paths.len() as u64 > i64::MAX as u64 {
                return ApplyOutcome::Reply(crate::printer::print_err("ERR"));
            }
            ApplyOutcome::Reply(jrem(store, c))
        },
        Command::JIncrBy(ref c) => ApplyOutcome::Reply(jincr_by(store, c)),
        Command::JIncrByFloat(ref c) => ApplyOutcome::Reply(jincr_by_float(store, c)),
    }
}

fn coords_ok(items: &Vec<crate::command::CmdGeoItem>) -> (r: bool)
    ensures
        r == geo_coords_ok(items@),
{
    let mut k: usize = 0;
    while k < items.len()
        invariant
            k <= items@.len(),
            forall|j: int|
                0 <= j < k ==> -900000000 <= (#[trigger] items@[j]).0 <= 900000000 && -1800000000
                    <= items@[j].1 <= 1800000000,
        decreases items@.len() - k,
    {
        if !(items[k].0 >= -900000000 && items[k].0 <= 900000000 && items[k].1 >= -1800000000
            && items[k].1 <= 1800000000) {
            proof {
                assert(!geo_coords_ok(items@));
            }
            return false;
        }
        k = k + 1;
    }
    true
}

/// Whether every geo item's coordinates lie on the globe.
pub open spec fn geo_coords_ok(items: Seq<crate::command::CmdGeoItem>) -> bool {
    forall|j: int|
        0 <= j < items.len() ==> -900000000 <= (#[trigger] items[j]).0 <= 900000000 && -1800000000
            <= items[j].1 <= 1800000000
}

/// Whether a value carries a well-formed geo index.
pub fn data_wf_exec(d: &Data) -> (r: bool)
    ensures
        r == !(*d is GeoTree),
        r ==> data_wf(*d),
{
    match *d {
        Data::GeoTree(_) => false,
        _ => true,
    }
}

} // verus!
