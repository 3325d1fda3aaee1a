use std::sync::atomic::{AtomicI64, Ordering};
use std::sync::Arc;

use vstd::prelude::*;

verus! {

/// Why a metrics operation failed.
#[derive(Clone, Copy, Debug, PartialEq, Eq, Structural)]
pub enum MetricsError {
    /// No counter was registered under the given name.
    UnknownKey,
}

/// A fixed set of named counters, each starting at zero. Clones share the
/// counters, which may be incremented from several threads at once.
#[derive(Clone)]
pub struct AmapMetrics {
    data: Arc<Vec<(String, AtomicI64)>>,
}

impl AmapMetrics {
    /// The registered names, in the order given at construction.
    pub closed spec fn names(&self) -> Seq<Seq<char>> {
        Seq::new((*self.data)@.len(), |i: int| (*self.data)@[i].0@)
    }

    /// Registers one counter, at zero, for each name.
    pub fn new(metric_names: &[&'static str]) -> (r: AmapMetrics)
        ensures
            r.names() == metric_names@.map_values(|s: &'static str| s@),
    {
        let mut data: Vec<(String, AtomicI64)> = Vec::new();
        let mut i: usize = 0;
        while i < metric_names.len()
            invariant
                i <= metric_names@.len(),
                data@.len() == i,
                forall|k: int| 0 <= k < i ==> #[trigger] data@[k].0@ == metric_names@[k]@,
            decreases metric_names@.len() - i,
        {
            let name: &str = metric_names[i];
            let owned = name.to_owned();
            let ghost old_data = data@;
            assert(owned@ == metric_names@[i as int]@);
            data.push((owned, AtomicI64::new(0)));
            assert forall|k: int| 0 <= k < i + 1 implies #[trigger] data@[k].0@
                == metric_names@[k]@ by {
                if k < i {
                    assert(data@[k] == old_data[k]);
                    assert(old_data[k].0@ == metric_names@[k]@);
                }
            }
            i = i + 1;
        }
        let r = AmapMetrics { data: Arc::new(data) };
        assert(r.names() =~= metric_names@.map_values(|s: &'static str| s@));
        r
    }

    /// Position of the counter named `key`, if one is registered.
    fn position(&self, key: &str) -> (r: Option<usize>)
        ensures
            r is Some <==> self.names().contains(key@),
            r matches Some(k) ==> k < self.names().len() && self.names()[k as int] == key@,
    {
        let wanted = key.to_owned();
        assert(wanted@ == key@);
        let n = self.data.len();
        let mut i: usize = 0;
        while i < n
            invariant
                n == self.names().len(),
                wanted@ == key@,
                i <= n,
                forall|k: int| 0 <= k < i ==> #[trigger] self.names()[k] != wanted@,
            decreases n - i,
        {
            let entry = &self.data[i];
            assert(entry.0@ == self.names()[i as int]);
            let same = entry.0.eq(&wanted);
            if same {
                assert(self.names()[i as int] == key@);
                return Some(i);
            }
            i = i + 1;
        }
        proof {
            if self.names().contains(key@) {
                let k = choose|k: int| 0 <= k < n && self.names()[k] == key@;
                assert(self.names()[k] != key@);
            }
        }
        None
    }

    /// Adds one to the counter named `key`; fails when no such counter is registered.
    pub fn inc(&self, key: &str) -> (r: Result<(), MetricsError>)
        ensures
            r is Ok <==> self.names().contains(key@),
            r is Err ==> r == Err::<(), MetricsError>(MetricsError::UnknownKey),
    {
        match self.position(key) {
            Some(k) => {
                self.data[k].1.fetch_add(1, Ordering::Relaxed);
                Ok(())
            },
            None => Err(MetricsError::UnknownKey),
        }
    }

    /// The current value of the counter named `key`, if one is registered.
    pub fn get(&self, key: &str) -> (r: Option<i64>)
        ensures
            r is Some <==> self.names().contains(key@),
    {
        match self.position(key) {
            Some(k) => Some(self.data[k].1.load(Ordering::Relaxed)),
            None => None,
        }
    }
}

} // verus!
