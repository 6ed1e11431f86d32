//! The token registry: opaque credentials mapped to the project and user
//! they authorize, with at most one live credential per (project, user)
//! pair — registering a new one supersedes and removes the prior token.
use crate::strmap::StrMap;
use vstd::prelude::*;

verus! {

/// A registered credential: who it authorizes, when it was issued (epoch
/// milliseconds), and its declared time-to-live in seconds. The TTL is
/// recorded but not enforced at lookup time: a credential admits sessions
/// for as long as it stays in the registry.
pub struct TokenData {
    pub user_id: String,
    pub project_id: String,
    pub created_at: i64,
    pub ttl: u64,
}

/// The token a (project, user) pair currently holds, in a user-token model.
pub open spec fn user_token_of(
    ut: Map<Seq<char>, Map<Seq<char>, Seq<char>>>,
    p: Seq<char>,
    u: Seq<char>,
) -> Option<Seq<char>> {
    if ut.contains_key(p) && ut[p].contains_key(u) {
        Some(ut[p][u])
    } else {
        None
    }
}

/// The token table after a registration: the superseded token (if any) is
/// removed, then the new credential is inserted.
pub open spec fn tokens_after_register(
    tokens: Map<Seq<char>, TokenData>,
    prior: Option<Seq<char>>,
    t: Seq<char>,
    td: TokenData,
) -> Map<Seq<char>, TokenData> {
    (match prior {
        Some(ot) => tokens.remove(ot),
        None => tokens,
    }).insert(t, td)
}

/// The user-token model after a registration: the pair now holds `t`.
pub open spec fn user_tokens_after_register(
    ut: Map<Seq<char>, Map<Seq<char>, Seq<char>>>,
    p: Seq<char>,
    u: Seq<char>,
    t: Seq<char>,
) -> Map<Seq<char>, Map<Seq<char>, Seq<char>>> {
    ut.insert(
        p,
        (if ut.contains_key(p) {
            ut[p]
        } else {
            Map::empty()
        }).insert(u, t),
    )
}

/// Token -> credential, with the reverse (project, user) -> token table used
/// to find and supersede a user's prior token on re-registration.
pub struct TokenRegistry {
    tokens: StrMap<TokenData>,
    user_tokens: StrMap<StrMap<String>>,
}

impl TokenRegistry {
    /// The credential each token authorizes.
    pub closed spec fn tokens_view(&self) -> Map<Seq<char>, TokenData> {
        self.tokens@
    }

    /// The token each (project, user) pair currently holds.
    pub closed spec fn user_tokens_view(&self) -> Map<Seq<char>, Map<Seq<char>, Seq<char>>> {
        Map::new(
            |p: Seq<char>| self.user_tokens@.contains_key(p),
            |p: Seq<char>|
                Map::new(
                    |u: Seq<char>| self.user_tokens@[p]@.contains_key(u),
                    |u: Seq<char>| self.user_tokens@[p]@[u]@,
                ),
        )
    }

    pub closed spec fn wf(&self) -> bool {
        &&& self.tokens.wf()
        &&& self.user_tokens.wf()
        &&& forall|p: Seq<char>|
            self.user_tokens@.contains_key(p) ==> (#[trigger] self.user_tokens@[p]).wf()
    }

    pub fn new() -> (r: TokenRegistry)
        ensures
            r.wf(),
            r.tokens_view() == Map::<Seq<char>, TokenData>::empty(),
            r.user_tokens_view() =~~= Map::<Seq<char>, Map<Seq<char>, Seq<char>>>::empty(),
    {
        let r = TokenRegistry { tokens: StrMap::new(), user_tokens: StrMap::new() };
        proof {
            assert(r.user_tokens_view() =~~= Map::<Seq<char>, Map<Seq<char>, Seq<char>>>::empty());
        }
        r
    }

    /// Insert or overwrite the credential for `token`; if the (project,
    /// user) pair already held a different token, that prior token is
    /// removed first, so at most one credential per pair stays live.
    /// Always succeeds.
    pub fn register(
        &mut self,
        token: &String,
        user_id: &String,
        project_id: &String,
        ttl: u64,
        created_at: i64,
    )
        requires
            old(self).wf(),
        ensures
            final(self).wf(),
            final(self).tokens_view().contains_key(token@),
            ({
                let td = final(self).tokens_view()[token@];
                td.user_id@ == user_id@ && td.project_id@ == project_id@ && td.ttl == ttl
                    && td.created_at == created_at
            }),
            final(self).tokens_view() == tokens_after_register(
                old(self).tokens_view(),
                user_token_of(old(self).user_tokens_view(), project_id@, user_id@),
                token@,
                final(self).tokens_view()[token@],
            ),
            final(self).user_tokens_view() == user_tokens_after_register(
                old(self).user_tokens_view(),
                project_id@,
                user_id@,
                token@,
            ),
    {
        let mut inner = match self.user_tokens.take(project_id) {
            Some(m) => m,
            None => StrMap::new(),
        };
        let prior = inner.take(user_id);
        match &prior {
            Some(old_token) => {
                let _ = self.tokens.take(old_token);
            },
            None => {},
        }
        let td = TokenData {
            user_id: user_id.clone(),
            project_id: project_id.clone(),
            created_at,
            ttl,
        };
        self.tokens.insert(token.clone(), td);
        inner.insert(user_id.clone(), token.clone());
        self.user_tokens.insert(project_id.clone(), inner);
        proof {
            assert(self.tokens_view() =~= tokens_after_register(
                old(self).tokens_view(),
                user_token_of(old(self).user_tokens_view(), project_id@, user_id@),
                token@,
                self.tokens_view()[token@],
            ));
            assert(self.user_tokens_view() =~~= user_tokens_after_register(
                old(self).user_tokens_view(),
                project_id@,
                user_id@,
                token@,
            ));
        }
    }

    /// The credential a token authorizes, if it is registered. Never
    /// mutates; used once at session admission.
    pub fn lookup(&self, token: &String) -> (r: Option<&TokenData>)
        requires
            self.wf(),
        ensures
            match r {
                Some(td) => self.tokens_view().contains_key(token@) && *td
                    == self.tokens_view()[token@],
                None => !self.tokens_view().contains_key(token@),
            },
    {
        self.tokens.get(token)
    }
}

/// Registering a new token for a (project, user) pair that already holds
/// one removes the prior token from the registry, so the prior token no
/// longer admits sessions.
pub proof fn lemma_register_supersedes_prior(
    tokens0: Map<Seq<char>, TokenData>,
    ut0: Map<Seq<char>, Map<Seq<char>, Seq<char>>>,
    p: Seq<char>,
    u: Seq<char>,
    t1: Seq<char>,
    td1: TokenData,
    t2: Seq<char>,
    td2: TokenData,
)
    requires
        t1 != t2,
    ensures
        ({
            let tokens1 = tokens_after_register(tokens0, user_token_of(ut0, p, u), t1, td1);
            let ut1 = user_tokens_after_register(ut0, p, u, t1);
            let tokens2 = tokens_after_register(tokens1, user_token_of(ut1, p, u), t2, td2);
            !tokens2.contains_key(t1)
        }),
{
}

} // verus!
