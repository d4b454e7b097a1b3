//! The argument builder: an accumulator of key/value pairs, last write wins.

use vstd::prelude::*;

use crate::replace::str_eq;

verus! {

/// All pairs of `pairs` whose key is not `k`, in their original order.
pub open spec fn remove_pair(
    pairs: Seq<(Seq<char>, Seq<char>)>,
    k: Seq<char>,
) -> Seq<(Seq<char>, Seq<char>)>
    decreases pairs.len(),
{
    if pairs.len() == 0 {
        Seq::empty()
    } else if pairs[0].0 == k {
        remove_pair(pairs.drop_first(), k)
    } else {
        seq![pairs[0]] + remove_pair(pairs.drop_first(), k)
    }
}

/// A mapping from key names to already-rendered replacement text.
///
/// Values are stored as plain text: render a value before inserting it, so the
/// builder keeps no reference to the original value.  Re-inserting a key
/// overwrites its previous value.
pub struct Args {
    pairs: Vec<(String, String)>,
}

impl View for Args {
    type V = Seq<(Seq<char>, Seq<char>)>;

    closed spec fn view(&self) -> Seq<(Seq<char>, Seq<char>)> {
        self.pairs.deep_view()
    }
}

impl Args {
    /// An empty argument set.
    pub fn new() -> (r: Self)
        ensures
            r@ == Seq::<(Seq<char>, Seq<char>)>::empty(),
    {
        Args { pairs: Vec::new() }
    }

    /// How many keys are mapped.
    pub fn len(&self) -> (r: usize)
        ensures
            r == self@.len(),
    {
        self.pairs.len()
    }

    /// Whether no key is mapped.
    pub fn is_empty(&self) -> (r: bool)
        ensures
            r == (self@.len() == 0),
    {
        self.pairs.len() == 0
    }

    /// Map `key` to `val`.  An earlier pair with the same key is dropped, so
    /// the last write wins and each key occurs at most once.
    pub fn with(self, key: &str, val: &str) -> (r: Self)
        ensures
            r@ == remove_pair(self@, key@).push((key@, val@)),
    {
        let ghost orig: Seq<(Seq<char>, Seq<char>)> = self@;
        let mut pairs = self.pairs;
        let mut kept: Vec<(String, String)> = Vec::new();
        let n = pairs.len();
        let mut i: usize = 0;
        proof {
            assert(orig.skip(0) =~= orig);
            assert(kept.deep_view() =~= Seq::<(Seq<char>, Seq<char>)>::empty());
            assert(kept.deep_view() + remove_pair(orig, key@) =~= remove_pair(orig, key@));
        }
        while i < n
            invariant
                i <= n,
                n == orig.len(),
                pairs.deep_view() == orig,
                n == pairs.len(),
                remove_pair(orig, key@) == kept.deep_view() + remove_pair(
                    orig.skip(i as int),
                    key@,
                ),
            decreases n - i,
        {
            let ghost rest = orig.skip(i as int);
            let ghost kd = kept.deep_view();
            proof {
                assert(rest[0] == orig[i as int]);
                assert(rest.drop_first() =~= orig.skip(i + 1));
            }
            if !str_eq(pairs[i].0.as_str(), key) {
                let k = pairs[i].0.clone();
                let v = pairs[i].1.clone();
                kept.push((k, v));
                proof {
                    assert(orig[i as int].0 != key@);
                    assert(remove_pair(rest, key@) == seq![orig[i as int]] + remove_pair(
                        orig.skip(i + 1),
                        key@,
                    ));
                    assert(kd.len() == kept@.len() - 1);
                    assert(kept.deep_view() =~= kd.push(orig[i as int]));
                    assert(kd.push(orig[i as int]) + remove_pair(orig.skip(i + 1), key@) =~= kd + (
                    seq![orig[i as int]] + remove_pair(orig.skip(i + 1), key@)));
                }
            } else {
                proof {
                    assert(orig[i as int].0 == key@);
                    assert(remove_pair(rest, key@) == remove_pair(orig.skip(i + 1), key@));
                }
            }
            i += 1;
        }
        proof {
            assert(orig.skip(n as int) =~= Seq::<(Seq<char>, Seq<char>)>::empty());
            assert(remove_pair(orig, key@) =~= kept.deep_view());
        }
        let ghost before_push = kept.deep_view();
        kept.push((key.to_owned(), val.to_owned()));
        proof {
            assert(before_push.len() == kept@.len() - 1);
            assert(kept.deep_view() =~= before_push.push((key@, val@)));
        }
        Args { pairs: kept }
    }

    /// The stored pairs, in their current order.  Callers should not rely on
    /// any particular order.
    pub fn iter(&self) -> (r: &Vec<(String, String)>)
        ensures
            r.deep_view() == self@,
    {
        &self.pairs
    }
}

impl Default for Args {
    /// The empty argument set.
    fn default() -> (r: Self)
        ensures
            r@ == Seq::<(Seq<char>, Seq<char>)>::empty(),
    {
        Args { pairs: Vec::new() }
    }
}

impl Clone for Args {
    /// An independent copy holding the same pairs.
    fn clone(&self) -> (r: Self)
        ensures
            r@ == self@,
    {
        let mut pairs: Vec<(String, String)> = Vec::new();
        let n = self.pairs.len();
        let mut i: usize = 0;
        proof {
            assert(pairs.deep_view() =~= self@.subrange(0, 0));
        }
        while i < n
            invariant
                i <= n,
                n == self.pairs.len(),
                pairs.deep_view() == self@.subrange(0, i as int),
            decreases n - i,
        {
            let ghost pre = pairs.deep_view();
            let k = self.pairs[i].0.clone();
            let v = self.pairs[i].1.clone();
            pairs.push((k, v));
            proof {
                assert(pre.len() == i);
                assert(pairs.deep_view() =~= self@.subrange(0, i + 1));
            }
            i += 1;
        }
        proof {
            assert(self@.subrange(0, n as int) =~= self@);
        }
        Args { pairs }
    }
}

} // verus!
