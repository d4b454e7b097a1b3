//! The unresolved-key multiset of a parsed template: the keys found by the
//! scanner, erased one name at a time as substitution resolves them.

use vstd::prelude::*;

use crate::replace::str_eq;
use crate::scan::has_dup;

verus! {

/// All entries of `keys` whose text is not `k`, in their original order.
pub open spec fn remove_key(keys: Seq<Seq<char>>, k: Seq<char>) -> Seq<Seq<char>>
    decreases keys.len(),
{
    if keys.len() == 0 {
        Seq::empty()
    } else if keys[0] == k {
        remove_key(keys.drop_first(), k)
    } else {
        seq![keys[0]] + remove_key(keys.drop_first(), k)
    }
}

/// Removing an absent key changes nothing.
pub proof fn lemma_remove_key_absent(keys: Seq<Seq<char>>, k: Seq<char>)
    requires
        !keys.contains(k),
    ensures
        remove_key(keys, k) == keys,
    decreases keys.len(),
{
    if keys.len() == 0 {
        assert(remove_key(keys, k) =~= keys);
    } else {
        assert(keys[0] != k);
        assert(!keys.drop_first().contains(k)) by {
            if keys.drop_first().contains(k) {
                let j = choose|j: int| 0 <= j < keys.drop_first().len() && keys.drop_first()[j] == k;
                assert(keys[j + 1] == k);
            }
        }
        lemma_remove_key_absent(keys.drop_first(), k);
        assert(remove_key(keys, k) =~= keys);
    }
}

/// Membership after removal: everything but `k` survives, `k` does not.
pub proof fn lemma_remove_key_contains(keys: Seq<Seq<char>>, k: Seq<char>, x: Seq<char>)
    ensures
        remove_key(keys, k).contains(x) <==> (keys.contains(x) && x != k),
    decreases keys.len(),
{
    if keys.len() == 0 {
    } else {
        lemma_remove_key_contains(keys.drop_first(), k, x);
        assert(keys.drop_first().contains(x) ==> keys.contains(x)) by {
            if keys.drop_first().contains(x) {
                let j = choose|j: int| 0 <= j < keys.drop_first().len() && keys.drop_first()[j] == x;
                assert(keys[j + 1] == x);
            }
        }
        if keys.contains(x) && x != k {
            let j = choose|j: int| 0 <= j < keys.len() && keys[j] == x;
            if keys[0] == k {
                assert(j != 0);
                assert(keys.drop_first()[j - 1] == x);
            } else {
                if j != 0 {
                    assert(keys.drop_first()[j - 1] == x);
                    assert(remove_key(keys.drop_first(), k).contains(x));
                    let p = choose|p: int|
                        0 <= p < remove_key(keys.drop_first(), k).len() && remove_key(
                            keys.drop_first(),
                            k,
                        )[p] == x;
                    assert(remove_key(keys, k)[p + 1] == x);
                } else {
                    assert(remove_key(keys, k)[0] == x);
                }
            }
        }
        if remove_key(keys, k).contains(x) {
            let p = choose|p: int| 0 <= p < remove_key(keys, k).len() && remove_key(keys, k)[p] == x;
            if keys[0] != k && p != 0 {
                assert(remove_key(keys.drop_first(), k)[p - 1] == x);
            }
        }
    }
}

/// The ordered collection of keys still unresolved in a template.
#[derive(Debug)]
pub struct State {
    keys: Vec<String>,
}

impl View for State {
    type V = Seq<Seq<char>>;

    closed spec fn view(&self) -> Seq<Seq<char>> {
        self.keys.deep_view()
    }
}

impl State {
    /// Wrap a scanned key list.
    pub fn new(keys: Vec<String>) -> (r: Self)
        ensures
            r@ == keys.deep_view(),
    {
        State { keys }
    }

    /// Whether any key is still unresolved.
    pub fn has_keys(&self) -> (r: bool)
        ensures
            r == (self@.len() != 0),
    {
        self.keys.len() != 0
    }

    /// Remove every entry named `key`.  Returns the removed name and how many
    /// entries carried it, or `None` when the name is absent.
    pub fn remove(&mut self, key: &str) -> (r: Option<(String, usize)>)
        ensures
            final(self)@ == remove_key(old(self)@, key@),
            match r {
                Some(p) => old(self)@.contains(key@) && p.0@ == key@ && p.1 == old(self)@.len()
                    - final(self)@.len() && p.1 >= 1,
                None => !old(self)@.contains(key@),
            },
    {
        let ghost orig: Seq<Seq<char>> = self@;
        let mut kept: Vec<String> = Vec::new();
        let mut count: usize = 0;
        let mut found: Option<String> = None;
        let n = self.keys.len();
        let mut i: usize = 0;
        proof {
            assert(orig.skip(0) =~= orig);
            assert(kept.deep_view() =~= Seq::<Seq<char>>::empty());
            assert(kept.deep_view() + remove_key(orig, key@) =~= remove_key(orig, key@));
        }
        while i < n
            invariant
                i <= n,
                n == orig.len(),
                self@ == orig,
                n == self.keys.len(),
                count + kept.len() == i,
                remove_key(orig, key@) == kept.deep_view() + remove_key(orig.skip(i as int), key@),
                match found {
                    Some(s) => s@ == key@ && count >= 1 && (exists|j: int|
                        0 <= j < i && orig[j] == key@),
                    None => count == 0 && (forall|j: int| 0 <= j < i ==> orig[j] != key@),
                },
            decreases n - i,
        {
            let ghost rest = orig.skip(i as int);
            let ghost kd = kept.deep_view();
            proof {
                assert(rest[0] == orig[i as int]);
                assert(rest.drop_first() =~= orig.skip(i + 1));
            }
            if str_eq(self.keys[i].as_str(), key) {
                if count == 0 {
                    found = Some(self.keys[i].clone());
                }
                count += 1;
                proof {
                    assert(orig[i as int] == key@);
                    assert(remove_key(rest, key@) == remove_key(orig.skip(i + 1), key@));
                }
            } else {
                kept.push(self.keys[i].clone());
                proof {
                    assert(orig[i as int] != key@);
                    assert(remove_key(rest, key@) == seq![orig[i as int]] + remove_key(
                        orig.skip(i + 1),
                        key@,
                    ));
                    assert(kd.len() == kept@.len() - 1);
                    assert(kept.deep_view() =~= kd.push(orig[i as int]));
                    assert(kd.push(orig[i as int]) + remove_key(orig.skip(i + 1), key@) =~= kd + (
                    seq![orig[i as int]] + remove_key(orig.skip(i + 1), key@)));
                }
            }
            i += 1;
        }
        proof {
            assert(orig.skip(n as int) =~= Seq::<Seq<char>>::empty());
            assert(remove_key(orig, key@) =~= kept.deep_view());
        }
        self.keys = kept;
        match found {
            Some(s) => Some((s, count)),
            None => None,
        }
    }

    /// Whether some key name occurs more than once.
    pub fn has_duplicates(&self) -> (r: bool)
        ensures
            r == has_dup(self@),
    {
        let n = self.keys.len();
        let mut i: usize = 1;
        while i < n
            invariant
                1 <= i,
                n == self@.len(),
                n == self.keys.len(),
                forall|p: int, q: int| 0 <= p < q < i ==> self@[p] != self@[q],
            decreases n - i,
        {
            let mut j: usize = 0;
            while j < i
                invariant
                    j <= i < n,
                    n == self@.len(),
                    n == self.keys.len(),
                    forall|q: int| 0 <= q < j ==> self@[q] != self@[i as int],
                decreases i - j,
            {
                if str_eq(self.keys[j].as_str(), self.keys[i].as_str()) {
                    proof {
                        assert(self@[j as int] == self@[i as int]);
                    }
                    return true;
                }
                j += 1;
            }
            i += 1;
        }
        proof {
            if has_dup(self@) {
                let (p, q) = choose|p: int, q: int| 0 <= p < q < self@.len() && self@[p] == self@[q];
                assert(false);
            }
        }
        false
    }
}

impl Clone for State {
    /// An independent copy holding the same keys.
    fn clone(&self) -> (r: Self)
        ensures
            r@ == self@,
    {
        let mut keys: Vec<String> = Vec::new();
        let n = self.keys.len();
        let mut i: usize = 0;
        proof {
            assert(keys.deep_view() =~= self@.subrange(0, 0));
        }
        while i < n
            invariant
                i <= n,
                n == self.keys.len(),
                keys.deep_view() == self@.subrange(0, i as int),
            decreases n - i,
        {
            let ghost pre = keys.deep_view();
            keys.push(self.keys[i].clone());
            proof {
                assert(pre.len() == i);
                assert(keys.deep_view() =~= self@.subrange(0, i + 1));
            }
            i += 1;
        }
        proof {
            assert(self@.subrange(0, n as int) =~= self@);
        }
        State { keys }
    }
}

} // verus!
