//! The token registry: which connection reports which token.
//!
//! A connection holds at most one token and a token belongs to at most one
//! connection. The registry is read in two directions, by connection and by
//! token, and the two readings are inverse to each other at all times.

use crate::identity::ConnId;
use crate::table::{as_map, lemma_dom_len, lemma_entry_is_mapped, slot_of, IdTable};
use vstd::prelude::*;

verus! {

/// What came of an attempt to register a token.
#[derive(Clone, Copy, Debug, PartialEq, Eq, Structural)]
pub enum Registration {
    /// The token was free and now belongs to the connection.
    Registered,
    /// The token already belongs to a connection; nothing changed.
    AlreadyTaken,
}

/// The two readings of a registry agree: following one and then the other
/// leads back to where one started.
pub open spec fn mutually_inverse(
    by_addr: Map<ConnId, Seq<char>>,
    by_token: Map<Seq<char>, ConnId>,
) -> bool {
    &&& forall|id: ConnId| #[trigger]
        by_addr.contains_key(id) ==> by_token.contains_key(by_addr[id]) && by_token[by_addr[id]]
            == id
    &&& forall|token: Seq<char>| #[trigger]
        by_token.contains_key(token) ==> by_addr.contains_key(by_token[token])
            && by_addr[by_token[token]] == token
}

/// Registering `token` for `id` in a registry that reads `by_addr`: refused
/// when some connection holds the token, else `id` is bound to it, in place
/// of any token that `id` held before.
pub open spec fn register_model(by_addr: Map<ConnId, Seq<char>>, id: ConnId, token: Seq<char>) -> (
    Map<ConnId, Seq<char>>,
    Registration,
) {
    if by_addr.contains_value(token) {
        (by_addr, Registration::AlreadyTaken)
    } else {
        (by_addr.insert(id, token), Registration::Registered)
    }
}

/// Dropping whatever `id` holds in a registry that reads `by_addr`.
pub open spec fn unregister_model(by_addr: Map<ConnId, Seq<char>>, id: ConnId) -> Map<
    ConnId,
    Seq<char>,
> {
    by_addr.remove(id)
}

/// One operation on a registry.
pub enum RegistryOp {
    /// Register the token for the connection.
    Register(ConnId, Seq<char>),
    /// Drop whatever the connection holds.
    Unregister(ConnId),
}

/// The registry that results from running `ops`, first to last, on an empty
/// registry.
pub open spec fn run_ops(ops: Seq<RegistryOp>) -> Map<ConnId, Seq<char>>
    decreases ops.len(),
{
    if ops.len() == 0 {
        Map::empty()
    } else {
        let before = run_ops(ops.drop_last());
        match ops.last() {
            RegistryOp::Register(id, token) => register_model(before, id, token).0,
            RegistryOp::Unregister(id) => unregister_model(before, id),
        }
    }
}

/// An injective map and its inversion are mutually inverse.
pub proof fn lemma_injective_is_inverse(by_addr: Map<ConnId, Seq<char>>)
    requires
        by_addr.is_injective(),
    ensures
        mutually_inverse(by_addr, by_addr.invert()),
{
    let by_token = by_addr.invert();
    assert forall|id: ConnId| #[trigger] by_addr.contains_key(id) implies by_token.contains_key(
        by_addr[id],
    ) && by_token[by_addr[id]] == id by {
        assert(by_addr.contains_pair(id, by_addr[id]));
        assert(by_addr.contains_value(by_addr[id]));
        let k = by_token[by_addr[id]];
        assert(by_addr.contains_pair(k, by_addr[id]));
    }
    assert forall|token: Seq<char>| #[trigger] by_token.contains_key(token) implies by_addr
        .contains_key(by_token[token]) && by_addr[by_token[token]] == token by {
        assert(by_addr.contains_value(token));
        let w = choose|k: ConnId| #[trigger] by_addr.dom().contains(k) && by_addr[k] == token;
        assert(by_addr.contains_pair(w, token));
    }
}

/// Registering keeps the by-connection reading injective.
pub proof fn lemma_register_keeps_injective(
    by_addr: Map<ConnId, Seq<char>>,
    id: ConnId,
    token: Seq<char>,
)
    requires
        by_addr.is_injective(),
    ensures
        register_model(by_addr, id, token).0.is_injective(),
{
    if !by_addr.contains_value(token) {
        let after = by_addr.insert(id, token);
        assert forall|x: ConnId, y: ConnId|
            x != y && after.dom().contains(x) && after.dom().contains(y) implies #[trigger] after[x]
            != #[trigger] after[y] by {
            if x == id {
                assert(by_addr.dom().contains(y));
                if by_addr[y] == token {
                    assert(by_addr.contains_value(token));
                }
            } else if y == id {
                assert(by_addr.dom().contains(x));
                if by_addr[x] == token {
                    assert(by_addr.contains_value(token));
                }
            } else {
                assert(by_addr[x] != by_addr[y]);
            }
        }
    }
}

/// Unregistering keeps the by-connection reading injective.
pub proof fn lemma_unregister_keeps_injective(by_addr: Map<ConnId, Seq<char>>, id: ConnId)
    requires
        by_addr.is_injective(),
    ensures
        unregister_model(by_addr, id).is_injective(),
{
    let after = by_addr.remove(id);
    assert forall|x: ConnId, y: ConnId|
        x != y && after.dom().contains(x) && after.dom().contains(y) implies #[trigger] after[x]
        != #[trigger] after[y] by {
        assert(by_addr[x] != by_addr[y]);
    }
}

/// After any sequence of registrations and removals the two readings of the
/// registry are mutually inverse: for every registered token, looking up its
/// holder and then the holder's token gives the token back.
pub proof fn lemma_inverse_after_any_sequence(ops: Seq<RegistryOp>)
    ensures
        run_ops(ops).is_injective(),
        mutually_inverse(run_ops(ops), run_ops(ops).invert()),
        forall|token: Seq<char>| #[trigger]
            run_ops(ops).invert().contains_key(token) ==> run_ops(ops)[run_ops(
                ops,
            ).invert()[token]] == token,
    decreases ops.len(),
{
    if ops.len() > 0 {
        lemma_inverse_after_any_sequence(ops.drop_last());
        let before = run_ops(ops.drop_last());
        match ops.last() {
            RegistryOp::Register(id, token) => lemma_register_keeps_injective(before, id, token),
            RegistryOp::Unregister(id) => lemma_unregister_keeps_injective(before, id),
        }
    }
    lemma_injective_is_inverse(run_ops(ops));
}

/// When two distinct connections ask for the same token one after the
/// other, the second is refused and its attempt leaves the registry as the
/// first attempt left it. Where the first attempt registered the token, the
/// first connection is its only holder afterwards.
pub proof fn lemma_second_claim_is_refused(
    by_addr: Map<ConnId, Seq<char>>,
    first: ConnId,
    second: ConnId,
    token: Seq<char>,
)
    requires
        by_addr.is_injective(),
        first != second,
    ensures
        ({
            let once = register_model(by_addr, first, token);
            let twice = register_model(once.0, second, token);
            &&& twice.1 == Registration::AlreadyTaken
            &&& twice.0 == once.0
            &&& once.1 == Registration::Registered ==> {
                &&& twice.0.contains_key(first) && twice.0[first] == token
                &&& twice.0.invert().contains_key(token) && twice.0.invert()[token] == first
                &&& !(twice.0.contains_key(second) && twice.0[second] == token)
            }
        }),
{
    let once = register_model(by_addr, first, token).0;
    if by_addr.contains_value(token) {
        assert(once == by_addr);
    } else {
        assert(once == by_addr.insert(first, token));
        assert(once.contains_pair(first, token));
        assert(once.contains_value(token));
        lemma_register_keeps_injective(by_addr, first, token);
        lemma_injective_is_inverse(once);
        assert(once.contains_key(first));
    }
}

/// The registry of token bindings.
pub struct TokenRegistry {
    table: IdTable<String>,
}

impl TokenRegistry {
    /// The registry read by connection: the token that each registered
    /// connection holds.
    pub closed spec fn by_addr(&self) -> Map<ConnId, Seq<char>> {
        Map::new(|id: ConnId| self.table@.contains_key(id), |id: ConnId| self.table@[id]@)
    }

    /// The registry read by token: the connection that holds each registered
    /// token.
    pub open spec fn by_token(&self) -> Map<Seq<char>, ConnId> {
        self.by_addr().invert()
    }

    /// The registry's invariant. It makes the two readings mutually inverse.
    pub closed spec fn wf(&self) -> bool {
        &&& self.table.wf()
        &&& self.by_addr().is_injective()
    }

    /// In a well-formed registry no token has two holders and the two
    /// readings are mutually inverse.
    pub proof fn lemma_wf_is_inverse(&self)
        requires
            self.wf(),
        ensures
            self.by_addr().is_injective(),
            mutually_inverse(self.by_addr(), self.by_token()),
    {
        lemma_injective_is_inverse(self.by_addr());
    }

    /// An empty registry.
    pub fn new() -> (registry: Self)
        ensures
            registry.wf(),
            registry.by_addr() == Map::<ConnId, Seq<char>>::empty(),
    {
        let registry = TokenRegistry { table: IdTable::new() };
        assert(registry.by_addr() =~= Map::<ConnId, Seq<char>>::empty());
        registry
    }

    /// The number of bindings.
    pub fn len(&self) -> (n: usize)
        requires
            self.wf(),
        ensures
            n == self.by_addr().len(),
            self.by_addr().dom().finite(),
    {
        proof {
            self.lemma_len();
        }
        self.table.len()
    }

    proof fn lemma_len(&self)
        requires
            self.wf(),
        ensures
            self.by_addr().dom().finite(),
            self.by_addr().len() == self.table.entries().len(),
    {
        lemma_dom_len(self.table.entries());
        assert(self.by_addr().dom() =~= as_map(self.table.entries()).dom());
    }

    /// The token that `id` holds, if it holds one.
    pub fn token_of(&self, id: ConnId) -> (found: Option<&String>)
        requires
            self.wf(),
        ensures
            match found {
                Some(token) => self.by_addr().contains_key(id) && token@ == self.by_addr()[id],
                None => !self.by_addr().contains_key(id),
            },
    {
        self.table.get(id)
    }

    /// Whether `id` holds a token.
    pub fn is_registered(&self, id: ConnId) -> (registered: bool)
        requires
            self.wf(),
        ensures
            registered == self.by_addr().contains_key(id),
    {
        self.table.contains(id)
    }

    /// The connection that holds `token`, if one does.
    pub fn holder_of(&self, token: &String) -> (found: Option<ConnId>)
        requires
            self.wf(),
        ensures
            match found {
                Some(id) => self.by_token().contains_key(token@) && self.by_token()[token@] == id
                    && self.by_addr().contains_key(id) && self.by_addr()[id] == token@,
                None => !self.by_token().contains_key(token@) && !self.by_addr().contains_value(
                    token@,
                ),
            },
    {
        let n = self.table.len();
        let mut i: usize = 0;
        while i < n
            invariant
                self.wf(),
                n == self.table.entries().len(),
                i <= n,
                forall|k: int| 0 <= k < i ==> (#[trigger] self.table.entries()[k]).1@ != token@,
            decreases n - i,
        {
            if *self.table.value_at(i) == *token {
                let id = self.table.key_at(i);
                proof {
                    lemma_entry_is_mapped(self.table.entries(), i as int);
                    assert(self.by_addr().contains_pair(id, token@));
                    assert(self.by_addr().contains_value(token@));
                    lemma_injective_is_inverse(self.by_addr());
                }
                return Some(id);
            }
            i += 1;
        }
        proof {
            if self.by_addr().contains_value(token@) {
                let w = choose|k: ConnId| #[trigger]
                    self.by_addr().dom().contains(k) && self.by_addr()[k] == token@;
                let j = slot_of(self.table.entries(), w);
                assert(self.table.entries()[j].1@ == token@);
            }
        }
        None
    }

    /// Binds `token` to `id` unless some connection holds `token` already.
    /// The test and the insertion are one step. A token that `id` held
    /// before is released by a successful registration.
    pub fn register_token(&mut self, id: ConnId, token: String) -> (outcome: Registration)
        requires
            old(self).wf(),
        ensures
            final(self).wf(),
            (final(self).by_addr(), outcome) == register_model(old(self).by_addr(), id, token@),
            outcome == Registration::AlreadyTaken <==> old(self).by_token().contains_key(token@),
            outcome == Registration::Registered ==> final(self).by_token().contains_key(token@)
                && final(self).by_token()[token@] == id,
            mutually_inverse(final(self).by_addr(), final(self).by_token()),
    {
        let ghost before = self.by_addr();
        match self.holder_of(&token) {
            Some(_) => {
                proof {
                    lemma_injective_is_inverse(before);
                }
                Registration::AlreadyTaken
            },
            None => {
                self.table.insert(id, token);
                proof {
                    assert(self.by_addr() =~= before.insert(id, token@));
                    lemma_register_keeps_injective(before, id, token@);
                    lemma_injective_is_inverse(self.by_addr());
                    assert(self.by_addr().contains_key(id));
                }
                Registration::Registered
            },
        }
    }

    /// Drops the binding of `id` in both directions and returns the token it
    /// held, if it held one.
    pub fn unregister(&mut self, id: ConnId) -> (released: Option<String>)
        requires
            old(self).wf(),
        ensures
            final(self).wf(),
            final(self).by_addr() == unregister_model(old(self).by_addr(), id),
            !final(self).by_addr().contains_key(id),
            match released {
                Some(token) => old(self).by_addr().contains_key(id) && token@ == old(
                    self,
                ).by_addr()[id] && !final(self).by_token().contains_key(token@),
                None => !old(self).by_addr().contains_key(id),
            },
            mutually_inverse(final(self).by_addr(), final(self).by_token()),
    {
        let ghost before = self.by_addr();
        let released = self.table.remove(id);
        proof {
            assert(self.by_addr() =~= before.remove(id));
            lemma_unregister_keeps_injective(before, id);
            lemma_injective_is_inverse(self.by_addr());
            if before.contains_key(id) {
                let token = before[id];
                if self.by_addr().contains_value(token) {
                    let w = choose|k: ConnId| #[trigger]
                        self.by_addr().dom().contains(k) && self.by_addr()[k] == token;
                    assert(before.dom().contains(w) && before.dom().contains(id));
                    assert(before[w] != before[id]);
                }
            }
        }
        released
    }
}

} // verus!
