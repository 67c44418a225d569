use vstd::prelude::*;

use vstd::seq_lib::*;

use crate::kdf::{is_pmk_text, pmk_hex};

verus! {

/// The texts held by a sequence of strings.
pub open spec fn texts(v: Seq<String>) -> Seq<Seq<char>> {
    v.map_values(|s: String| s@)
}

/// The keys one unit of work derives for `network`: one per password, in the
/// order of the passwords.
pub open spec fn unit_keys(network: Seq<char>, passwords: Seq<Seq<char>>) -> Seq<Seq<char>> {
    passwords.map_values(|p: Seq<char>| pmk_hex(p, network))
}

/// The keys of a whole run when the units of work are appended one after the
/// other, in the order of the networks.
pub open spec fn all_keys(networks: Seq<Seq<char>>, passwords: Seq<Seq<char>>) -> Seq<Seq<char>>
    decreases networks.len(),
{
    if networks.len() == 0 {
        Seq::empty()
    } else {
        all_keys(networks.drop_last(), passwords) + unit_keys(networks.last(), passwords)
    }
}

/// The collection that receives derived keys. It only grows, by `append`, and
/// is handed out whole by `drain`.
pub struct ResultSet {
    keys: Vec<String>,
}

impl View for ResultSet {
    type V = Seq<Seq<char>>;

    closed spec fn view(&self) -> Seq<Seq<char>> {
        texts(self.keys@)
    }
}

impl ResultSet {
    /// An empty collection.
    pub fn new() -> (r: ResultSet)
        ensures
            r@ == Seq::<Seq<char>>::empty(),
    {
        let r = ResultSet { keys: Vec::new() };
        proof {
            assert(r@ =~= Seq::<Seq<char>>::empty());
        }
        r
    }

    /// Adds one key at the end.
    pub fn append(&mut self, key: String)
        ensures
            final(self)@ == old(self)@.push(key@),
    {
        self.keys.push(key);
        proof {
            assert(final(self)@ =~= old(self)@.push(key@));
        }
    }

    /// The number of keys held.
    pub fn len(&self) -> (r: usize)
        ensures
            r == self@.len(),
    {
        self.keys.len()
    }

    /// Whether no key is held.
    pub fn is_empty(&self) -> (r: bool)
        ensures
            r == (self@.len() == 0),
    {
        self.keys.len() == 0
    }

    /// Hands out every key, in the order in which they were appended.
    pub fn drain(self) -> (r: Vec<String>)
        ensures
            texts(r@) == self@,
    {
        self.keys
    }
}

/// One unit of work: the key of each password for `network`, in the order of
/// the passwords.
pub fn network_keys(network: &str, passwords: &Vec<String>) -> (r: Vec<String>)
    ensures
        texts(r@) == unit_keys(network@, texts(passwords@)),
        forall|i: int| 0 <= i < r@.len() ==> is_pmk_text(#[trigger] r@[i]@),
{
    let mut out: Vec<String> = Vec::new();
    let mut i: usize = 0;
    while i < passwords.len()
        invariant
            i <= passwords@.len(),
            texts(out@) =~= unit_keys(network@, texts(passwords@.subrange(0, i as int))),
            forall|j: int| 0 <= j < out@.len() ==> is_pmk_text(#[trigger] out@[j]@),
        decreases passwords@.len() - i,
    {
        let key = crate::kdf::derive(passwords[i].as_str(), network);
        let ghost prev = out@;
        out.push(key);
        proof {
            let done = texts(passwords@.subrange(0, i as int));
            let next = texts(passwords@.subrange(0, i + 1));
            assert(next =~= done.push(passwords@[i as int]@));
            assert(unit_keys(network@, next) =~= unit_keys(network@, done).push(
                pmk_hex(passwords@[i as int]@, network@),
            ));
            assert(texts(out@) =~= texts(prev).push(key@));
        }
        i = i + 1;
    }
    proof {
        assert(passwords@.subrange(0, passwords@.len() as int) =~= passwords@);
    }
    out
}

/// A whole run, with the units of work performed one after the other: the
/// keys of every (network, password) pair, network by network.
pub fn derive_all(networks: &Vec<String>, passwords: &Vec<String>) -> (r: ResultSet)
    ensures
        r@ == all_keys(texts(networks@), texts(passwords@)),
        r@.len() == networks@.len() * passwords@.len(),
        forall|i: int| 0 <= i < r@.len() ==> is_pmk_text(#[trigger] r@[i]),
{
    let mut results = ResultSet::new();
    let mut n: usize = 0;
    while n < networks.len()
        invariant
            n <= networks@.len(),
            results@ == all_keys(texts(networks@.subrange(0, n as int)), texts(passwords@)),
            forall|i: int| 0 <= i < results@.len() ==> is_pmk_text(#[trigger] results@[i]),
        decreases networks@.len() - n,
    {
        let keys = network_keys(networks[n].as_str(), passwords);
        let ghost before = results@;
        let mut k: usize = 0;
        while k < keys.len()
            invariant
                k <= keys@.len(),
                texts(keys@) == unit_keys(networks@[n as int]@, texts(passwords@)),
                forall|j: int| 0 <= j < keys@.len() ==> is_pmk_text(#[trigger] keys@[j]@),
                results@ =~= before + texts(keys@.subrange(0, k as int)),
                forall|i: int| 0 <= i < before.len() ==> is_pmk_text(#[trigger] before[i]),
            decreases keys@.len() - k,
        {
            results.append(keys[k].clone());
            proof {
                assert(texts(keys@.subrange(0, k + 1)) =~= texts(keys@.subrange(0, k as int)).push(
                    keys@[k as int]@,
                ));
            }
            k = k + 1;
        }
        proof {
            assert(keys@.subrange(0, keys@.len() as int) =~= keys@);
            let pre = texts(networks@.subrange(0, n + 1));
            assert(pre.drop_last() =~= texts(networks@.subrange(0, n as int)));
            assert(pre.last() == networks@[n as int]@);
            assert forall|i: int| 0 <= i < results@.len() implies is_pmk_text(
                #[trigger] results@[i],
            ) by {
                if i >= before.len() {
                    assert(results@[i] == keys@[i - before.len()]@);
                }
            }
        }
        n = n + 1;
    }
    proof {
        assert(networks@.subrange(0, networks@.len() as int) =~= networks@);
        lemma_result_count(texts(networks@), texts(passwords@));
    }
    results
}

/// A run over `n` networks and `m` passwords yields exactly `n * m` keys.
pub proof fn lemma_result_count(networks: Seq<Seq<char>>, passwords: Seq<Seq<char>>)
    ensures
        all_keys(networks, passwords).len() == networks.len() * passwords.len(),
    decreases networks.len(),
{
    if networks.len() > 0 {
        lemma_result_count(networks.drop_last(), passwords);
        assert(networks.len() * passwords.len() == (networks.len() - 1) * passwords.len()
            + passwords.len()) by (nonlinear_arith);
    }
}

/// With no network or no password, a run yields no key.
pub proof fn lemma_empty_input(networks: Seq<Seq<char>>, passwords: Seq<Seq<char>>)
    requires
        networks.len() == 0 || passwords.len() == 0,
    ensures
        all_keys(networks, passwords) == Seq::<Seq<char>>::empty(),
{
    lemma_result_count(networks, passwords);
    assert(all_keys(networks, passwords) =~= Seq::<Seq<char>>::empty());
}

/// Leaving the network at index `j` out of a run takes exactly its unit's keys
/// out of the run's keys, counted with multiplicity.
proof fn lemma_remove_unit(networks: Seq<Seq<char>>, passwords: Seq<Seq<char>>, j: int)
    requires
        0 <= j < networks.len(),
    ensures
        all_keys(networks, passwords).to_multiset() == all_keys(
            networks.remove(j),
            passwords,
        ).to_multiset().add(unit_keys(networks[j], passwords).to_multiset()),
    decreases networks.len(),
{
    broadcast use vstd::multiset::group_multiset_axioms;

    let last = networks.len() - 1;
    let rest = networks.drop_last();
    let unit_last = unit_keys(networks.last(), passwords);
    lemma_multiset_commutative(all_keys(rest, passwords), unit_last);
    if j == last {
        assert(networks.remove(j) =~= rest);
    } else {
        lemma_remove_unit(rest, passwords, j);
        let shorter = networks.remove(j);
        assert(shorter.drop_last() =~= rest.remove(j));
        assert(shorter.last() == networks.last());
        assert(rest[j] == networks[j]);
        lemma_multiset_commutative(all_keys(rest.remove(j), passwords), unit_last);
        assert(all_keys(networks, passwords).to_multiset() =~= all_keys(
            shorter,
            passwords,
        ).to_multiset().add(unit_keys(networks[j], passwords).to_multiset()));
    }
}

/// The keys of a run, counted with multiplicity, do not depend on the order
/// in which the units of work are taken: any reordering of the networks
/// yields the same multiset of keys. Workers that finish in any order thus
/// fill the result set with the same keys.
pub proof fn lemma_network_order(
    networks: Seq<Seq<char>>,
    reordered: Seq<Seq<char>>,
    passwords: Seq<Seq<char>>,
)
    requires
        networks.to_multiset() == reordered.to_multiset(),
    ensures
        all_keys(networks, passwords).to_multiset() == all_keys(reordered, passwords).to_multiset(),
    decreases networks.len(),
{
    broadcast use vstd::multiset::group_multiset_axioms;
    broadcast use vstd::seq_lib::group_to_multiset_ensures;

    if networks.len() == 0 {
        reordered.to_multiset_ensures();
        networks.to_multiset_ensures();
        assert(reordered.len() == 0);
        assert(all_keys(networks, passwords) =~= all_keys(reordered, passwords));
    } else {
        let x = networks.last();
        let rest = networks.drop_last();
        to_multiset_contains(networks, x);
        to_multiset_contains(reordered, x);
        assert(networks.contains(x)) by {
            assert(networks[networks.len() - 1] == x);
        }
        let j = choose|j: int| 0 <= j < reordered.len() && reordered[j] == x;
        to_multiset_remove(networks, networks.len() - 1);
        assert(networks.remove(networks.len() - 1) =~= rest);
        to_multiset_remove(reordered, j);
        lemma_network_order(rest, reordered.remove(j), passwords);
        lemma_remove_unit(reordered, passwords, j);
        lemma_multiset_commutative(all_keys(rest, passwords), unit_keys(x, passwords));
    }
}

} // verus!
