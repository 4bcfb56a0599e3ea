//! Secrets of the identity store at rest: GitHub tokens and OAuth browser nonces are stored
//! encrypted, each bound to what it belongs to, and read back only in that form.
use vstd::prelude::*;

use crate::error::AppError;
use crate::identity::{
    accept_pending_browser_login, browser_login_refusal, GitHubConnection, PendingBrowserLogin,
};
use crate::identity_store::{after_consume, pending_lookup, ConnectionEntry, PendingEntry, PendingLogins};
use crate::numbers::{integer_text, signed_decimal};
use crate::external::{seal_limit, utf8_encoding};
use crate::secrets::{decrypt_outcome, IdentityCipher, BROWSER_NONCE_PURPOSE, GITHUB_TOKEN_PURPOSE};
use crate::text::{has_prefix, owned, starts_with};

verus! {

/// The text is in the stored ciphertext form.
pub open spec fn sealed(s: Seq<char>) -> bool {
    has_prefix(s, "v1."@)
}

/// What a stored GitHub token is bound to: its account's stable id.
pub open spec fn token_context(c: GitHubConnection) -> Seq<char> {
    signed_decimal(c.account.github_user_id as int)
}

/// A stored connection's token as read back, or why it cannot be.
pub open spec fn token_read(key: Seq<u8>, c: GitHubConnection) -> Result<Seq<char>, Seq<char>> {
    if sealed(c.access_token@) {
        decrypt_outcome(key, GITHUB_TOKEN_PURPOSE@, token_context(c), c.access_token@)
    } else {
        Err("identity connection token is not encrypted"@)
    }
}

/// A stored browser login's nonce as read back, or why it cannot be.
pub open spec fn nonce_read(key: Seq<u8>, state_id: Seq<char>, p: PendingBrowserLogin) -> Result<
    Seq<char>,
    Seq<char>,
> {
    if sealed(p.browser_nonce@) {
        decrypt_outcome(key, BROWSER_NONCE_PURPOSE@, state_id, p.browser_nonce@)
    } else {
        Err("OAuth browser nonce is not encrypted"@)
    }
}

/// The connection with its token encrypted for storage; reading it back gives the token.
/// Exactly the tokens under the cipher's length limit are encrypted.
pub fn encode_connection(cipher: &IdentityCipher, connection: GitHubConnection) -> (r: Result<
    GitHubConnection,
    AppError,
>)
    requires
        cipher.wf(),
    ensures
        r is Ok <==> utf8_encoding(connection.access_token@).len() < seal_limit(),
        r is Ok ==> r->Ok_0.account == connection.account && r->Ok_0.scopes == connection.scopes
            && token_read(cipher.encryption_key(), r->Ok_0) == Ok::<Seq<char>, Seq<char>>(
            connection.access_token@,
        ),
        r is Err ==> r->Err_0 is Storage && r->Err_0->Storage_0@
            == "identity secret encryption failed"@,
{
    let context = integer_text(connection.account.github_user_id);
    let token = cipher.encrypt(GITHUB_TOKEN_PURPOSE, context.as_str(), connection.access_token.as_str())?;
    Ok(GitHubConnection { access_token: token, ..connection })
}

/// The connection with its stored token decrypted; a token not in the stored form is
/// refused.
pub fn decode_connection(cipher: &IdentityCipher, connection: GitHubConnection) -> (r: Result<
    GitHubConnection,
    AppError,
>)
    requires
        cipher.wf(),
    ensures
        token_read(cipher.encryption_key(), connection) is Ok ==> r is Ok && r->Ok_0.account
            == connection.account && r->Ok_0.scopes == connection.scopes
            && r->Ok_0.access_token@ == token_read(cipher.encryption_key(), connection)->Ok_0,
        token_read(cipher.encryption_key(), connection) is Err ==> r is Err && r->Err_0 is Storage
            && r->Err_0->Storage_0@ == token_read(cipher.encryption_key(), connection)->Err_0,
{
    proof {
        reveal_strlit("v1.");
    }
    if !starts_with(connection.access_token.as_str(), "v1.") {
        return Err(AppError::Storage(owned("identity connection token is not encrypted")));
    }
    let context = integer_text(connection.account.github_user_id);
    let token = cipher.decrypt(GITHUB_TOKEN_PURPOSE, context.as_str(), connection.access_token.as_str())?;
    Ok(GitHubConnection { access_token: token, ..connection })
}

/// The browser login with its nonce encrypted for storage under `state_id`; reading it
/// back under the same state gives the nonce. Exactly the nonces under the cipher's length
/// limit are encrypted.
pub fn encode_pending(cipher: &IdentityCipher, state_id: &str, pending: PendingBrowserLogin) -> (r:
    Result<PendingBrowserLogin, AppError>)
    requires
        cipher.wf(),
    ensures
        r is Ok <==> utf8_encoding(pending.browser_nonce@).len() < seal_limit(),
        r is Ok ==> r->Ok_0 == (PendingBrowserLogin { browser_nonce: r->Ok_0.browser_nonce, ..pending })
            && nonce_read(cipher.encryption_key(), state_id@, r->Ok_0) == Ok::<
            Seq<char>,
            Seq<char>,
        >(pending.browser_nonce@),
        r is Err ==> r->Err_0 is Storage && r->Err_0->Storage_0@
            == "identity secret encryption failed"@,
{
    let nonce = cipher.encrypt(BROWSER_NONCE_PURPOSE, state_id, pending.browser_nonce.as_str())?;
    Ok(PendingBrowserLogin { browser_nonce: nonce, ..pending })
}

/// The browser login with its stored nonce decrypted; a nonce not in the stored form is
/// refused.
pub fn decode_pending(cipher: &IdentityCipher, state_id: &str, pending: PendingBrowserLogin) -> (r:
    Result<PendingBrowserLogin, AppError>)
    requires
        cipher.wf(),
    ensures
        nonce_read(cipher.encryption_key(), state_id@, pending) is Ok ==> r is Ok && r->Ok_0 == (
        PendingBrowserLogin { browser_nonce: r->Ok_0.browser_nonce, ..pending })
            && r->Ok_0.browser_nonce@ == nonce_read(cipher.encryption_key(), state_id@, pending)->Ok_0,
        nonce_read(cipher.encryption_key(), state_id@, pending) is Err ==> r is Err
            && r->Err_0 is Storage && r->Err_0->Storage_0@ == nonce_read(
            cipher.encryption_key(),
            state_id@,
            pending,
        )->Err_0,
{
    proof {
        reveal_strlit("v1.");
    }
    if !starts_with(pending.browser_nonce.as_str(), "v1.") {
        return Err(AppError::Storage(owned("OAuth browser nonce is not encrypted")));
    }
    let nonce = cipher.decrypt(BROWSER_NONCE_PURPOSE, state_id, pending.browser_nonce.as_str())?;
    Ok(PendingBrowserLogin { browser_nonce: nonce, ..pending })
}

/// Completes the stored side of a browser login's callback: takes the login waiting under
/// `state_id` out of the table, whatever comes of it, so that the state serves one callback
/// only; reads its nonce back; and accepts it only for the browser that started it, before
/// it expires.
pub fn claim_browser_login(
    logins: &mut PendingLogins,
    cipher: &IdentityCipher,
    state_id: &str,
    browser_nonce: &str,
    now: i64,
) -> (r: Result<PendingBrowserLogin, AppError>)
    requires
        old(logins).wf(),
        cipher.wf(),
    ensures
        final(logins).wf(),
        final(logins).entries@ == after_consume(old(logins).entries@, state_id@, now),
        pending_lookup(final(logins).entries@, state_id@) is None,
        pending_lookup(old(logins).entries@, state_id@) is None ==> r is Err && r->Err_0 is Validation
            && r->Err_0->Validation_0@ == "invalid or already-used OAuth state"@,
        ({
            let p = pending_lookup(old(logins).entries@, state_id@);
            let read = nonce_read(cipher.encryption_key(), state_id@, p->0);
            p is Some && read is Err ==> r is Err && r->Err_0 is Storage && r->Err_0->Storage_0@
                == read->Err_0
        }),
        ({
            let p = pending_lookup(old(logins).entries@, state_id@);
            let read = nonce_read(cipher.encryption_key(), state_id@, p->0);
            p is Some && read is Ok ==> exists|d: PendingBrowserLogin|
                #![trigger browser_login_refusal(Some(d), browser_nonce@, now as int)]
                d == (PendingBrowserLogin { browser_nonce: d.browser_nonce, ..p->0 })
                    && d.browser_nonce@ == read->Ok_0 && (browser_login_refusal(
                    Some(d),
                    browser_nonce@,
                    now as int,
                ) is None ==> r == Ok::<PendingBrowserLogin, AppError>(d)) && (browser_login_refusal(
                    Some(d),
                    browser_nonce@,
                    now as int,
                ) is Some ==> r is Err && r->Err_0 is Validation && r->Err_0->Validation_0@
                    == browser_login_refusal(Some(d), browser_nonce@, now as int)->0)
        }),
{
    let (taken, _changed) = logins.consume(state_id, now);
    let decoded = match taken {
        None => None,
        Some(p) => match decode_pending(cipher, state_id, p) {
            Ok(d) => Some(d),
            Err(e) => {
                return Err(e);
            },
        },
    };
    let r = accept_pending_browser_login(decoded, browser_nonce, now);
    proof {
        if decoded is Some {
            let d = decoded->0;
            assert(browser_login_refusal(Some(d), browser_nonce@, now as int)
                == browser_login_refusal(decoded, browser_nonce@, now as int));
        }
    }
    r
}

/// The secret a stored text holds: itself where it is plain, the decrypted secret where it
/// is in the stored form.
pub open spec fn secret_of(stored: Seq<char>, read: Result<Seq<char>, Seq<char>>) -> Seq<char> {
    if sealed(stored) {
        read->Ok_0
    } else {
        stored
    }
}

/// After the store's secrets were sealed: each connection keeps its user and account, its
/// token reads back as the secret it held before, and a token already sealed is untouched.
pub open spec fn connections_sealed(
    key: Seq<u8>,
    before: Seq<ConnectionEntry>,
    after: Seq<ConnectionEntry>,
) -> bool {
    &&& after.len() == before.len()
    &&& forall|k: int|
        0 <= k < before.len() ==> {
            let b = #[trigger] before[k];
            let a = after[k];
            &&& a.user_id == b.user_id
            &&& a.connection.account == b.connection.account
            &&& a.connection.scopes == b.connection.scopes
            &&& token_read(key, a.connection) is Ok
            &&& token_read(key, a.connection)->Ok_0 == secret_of(
                b.connection.access_token@,
                token_read(key, b.connection),
            )
            &&& sealed(b.connection.access_token@) ==> a.connection == b.connection
        }
}

/// After the store's secrets were sealed: each waiting login keeps its state id and
/// everything but its nonce, which reads back as the nonce it held before.
pub open spec fn logins_sealed(key: Seq<u8>, before: Seq<PendingEntry>, after: Seq<PendingEntry>) -> bool {
    &&& after.len() == before.len()
    &&& forall|k: int|
        0 <= k < before.len() ==> {
            let b = #[trigger] before[k];
            let a = after[k];
            &&& a.state_id == b.state_id
            &&& a.pending == (PendingBrowserLogin { browser_nonce: a.pending.browser_nonce, ..b.pending })
            &&& nonce_read(key, a.state_id@, a.pending) is Ok
            &&& nonce_read(key, a.state_id@, a.pending)->Ok_0 == secret_of(
                b.pending.browser_nonce@,
                nonce_read(key, b.state_id@, b.pending),
            )
            &&& sealed(b.pending.browser_nonce@) ==> a.pending == b.pending
        }
}

/// Some stored text is still plain.
pub open spec fn any_plain_token(s: Seq<ConnectionEntry>) -> bool {
    exists|k: int| 0 <= k < s.len() && !sealed((#[trigger] s[k]).connection.access_token@)
}

/// Some stored nonce is still plain.
pub open spec fn any_plain_nonce(s: Seq<PendingEntry>) -> bool {
    exists|k: int| 0 <= k < s.len() && !sealed((#[trigger] s[k]).pending.browser_nonce@)
}

/// Every stored token can be brought to the sealed form: a sealed one reads back with the
/// key, a plain one is under the cipher's length limit.
pub open spec fn tokens_sealable(key: Seq<u8>, s: Seq<ConnectionEntry>) -> bool {
    forall|k: int|
        0 <= k < s.len() ==> {
            let c = (#[trigger] s[k]).connection;
            if sealed(c.access_token@) {
                token_read(key, c) is Ok
            } else {
                utf8_encoding(c.access_token@).len() < seal_limit()
            }
        }
}

/// Every stored nonce can be brought to the sealed form: a sealed one reads back with the
/// key under its state id, a plain one is under the cipher's length limit.
pub open spec fn nonces_sealable(key: Seq<u8>, s: Seq<PendingEntry>) -> bool {
    forall|k: int|
        0 <= k < s.len() ==> {
            let e = #[trigger] s[k];
            if sealed(e.pending.browser_nonce@) {
                nonce_read(key, e.state_id@, e.pending) is Ok
            } else {
                utf8_encoding(e.pending.browser_nonce@).len() < seal_limit()
            }
        }
}

/// Encrypts the tokens and nonces that an older release stored in plain text, and checks
/// that the sealed ones can be read with this key; says whether anything was encrypted.
/// Refused where a sealed secret cannot be read or encryption fails; succeeds exactly where
/// every secret can be sealed, and leaves a store with nothing plain as it was.
pub fn seal_legacy_secrets(
    cipher: &IdentityCipher,
    connections: &mut Vec<ConnectionEntry>,
    pending: &mut Vec<PendingEntry>,
) -> (r: Result<bool, AppError>)
    requires
        cipher.wf(),
    ensures
        r is Ok ==> connections_sealed(cipher.encryption_key(), old(connections)@, final(connections)@)
            && logins_sealed(cipher.encryption_key(), old(pending)@, final(pending)@) && r->Ok_0 == (
        any_plain_token(old(connections)@) || any_plain_nonce(old(pending)@)),
        r is Ok <==> tokens_sealable(cipher.encryption_key(), old(connections)@) && nonces_sealable(
            cipher.encryption_key(),
            old(pending)@,
        ),
        r is Ok && !any_plain_token(old(connections)@) ==> final(connections)@ == old(
            connections,
        )@,
        r is Ok && !any_plain_nonce(old(pending)@) ==> final(pending)@ == old(pending)@,
        r is Err ==> r->Err_0 is Storage,
{
    let key = Ghost(cipher.encryption_key());
    let ghost start = connections@;
    let mut rest: Vec<ConnectionEntry> = Vec::new();
    std::mem::swap(&mut rest, connections);
    let n = rest.len();
    let mut changed = false;
    assert(start.skip(0) == start);
    while rest.len() > 0
        invariant
            cipher.wf(),
            key@ == cipher.encryption_key(),
            rest.len() <= n,
            n == start.len(),
            rest@ == start.skip(n - rest.len()),
            connections_sealed(key@, start.take(n - rest.len()), connections@),
            changed == any_plain_token(start.take(n - rest.len())),
            tokens_sealable(key@, start.take(n - rest.len())),
            start == old(connections)@,
            pending@ == old(pending)@,
        decreases rest.len(),
    {
        let ghost i: int = n - rest.len();
        let entry = rest.remove(0);
        proof {
            assert(entry == start[i]);
            assert(rest@ =~= start.skip(i + 1));
            assert(start.take(i + 1) == start.take(i).push(entry));
        }
        let ghost before = connections@;
        proof {
            reveal_strlit("v1.");
        }
        if starts_with(entry.connection.access_token.as_str(), "v1.") {
            let context = integer_text(entry.connection.account.github_user_id);
            let read = cipher.decrypt(
                GITHUB_TOKEN_PURPOSE,
                context.as_str(),
                entry.connection.access_token.as_str(),
            );
            if read.is_err() {
                proof {
                    assert(!tokens_sealable(key@, start)) by {
                        assert(start[i] == entry);
                    }
                }
                return Err(read.unwrap_err());
            }
            connections.push(entry);
        } else {
            let encoded = encode_connection(cipher, entry.connection);
            if encoded.is_err() {
                proof {
                    assert(!tokens_sealable(key@, start)) by {
                        assert(start[i] == entry);
                    }
                }
                return Err(encoded.unwrap_err());
            }
            let sealed_connection = encoded.unwrap();
            connections.push(ConnectionEntry { user_id: entry.user_id, connection: sealed_connection });
            changed = true;
        }
        proof {
            let done = start.take(i + 1);
            assert(connections@ == before.push(connections@.last()));
            assert forall|k: int| 0 <= k < done.len() implies {
                let b = #[trigger] done[k];
                let a = connections@[k];
                &&& a.user_id == b.user_id
                &&& a.connection.account == b.connection.account
                &&& a.connection.scopes == b.connection.scopes
                &&& token_read(key@, a.connection) is Ok
                &&& token_read(key@, a.connection)->Ok_0 == secret_of(
                    b.connection.access_token@,
                    token_read(key@, b.connection),
                )
                &&& sealed(b.connection.access_token@) ==> a.connection == b.connection
            } by {
                if k < i {
                    assert(done[k] == start.take(i)[k]);
                    assert(connections@[k] == before[k]);
                }
            }
            if changed {
                if !any_plain_token(start.take(i)) {
                    assert(!sealed(done[i].connection.access_token@));
                }
            }
            if any_plain_token(done) {
                let k = choose|k: int|
                    0 <= k < done.len() && !sealed((#[trigger] done[k]).connection.access_token@);
                if k < i {
                    assert(done[k] == start.take(i)[k]);
                }
            }
        }
    }
    assert(start.take(n as int) == start);
    proof {
        if !any_plain_token(start) {
            assert forall|k: int| 0 <= k < start.len() implies connections@[k] == start[k] by {
                assert(sealed(start[k].connection.access_token@));
            }
            assert(connections@ =~= start);
        }
    }
    let ghost waiting = pending@;
    let mut queue: Vec<PendingEntry> = Vec::new();
    std::mem::swap(&mut queue, pending);
    let m = queue.len();
    let mut nonces_changed = false;
    assert(waiting.skip(0) == waiting);
    while queue.len() > 0
        invariant
            cipher.wf(),
            key@ == cipher.encryption_key(),
            queue.len() <= m,
            m == waiting.len(),
            queue@ == waiting.skip(m - queue.len()),
            logins_sealed(key@, waiting.take(m - queue.len()), pending@),
            nonces_changed == any_plain_nonce(waiting.take(m - queue.len())),
            nonces_sealable(key@, waiting.take(m - queue.len())),
            tokens_sealable(key@, start),
            waiting == old(pending)@,
        decreases queue.len(),
    {
        let ghost i: int = m - queue.len();
        let entry = queue.remove(0);
        proof {
            assert(entry == waiting[i]);
            assert(queue@ =~= waiting.skip(i + 1));
            assert(waiting.take(i + 1) == waiting.take(i).push(entry));
        }
        let ghost before = pending@;
        proof {
            reveal_strlit("v1.");
        }
        if starts_with(entry.pending.browser_nonce.as_str(), "v1.") {
            let read = cipher.decrypt(
                BROWSER_NONCE_PURPOSE,
                entry.state_id.as_str(),
                entry.pending.browser_nonce.as_str(),
            );
            if read.is_err() {
                proof {
                    assert(!nonces_sealable(key@, waiting)) by {
                        assert(waiting[i] == entry);
                    }
                }
                return Err(read.unwrap_err());
            }
            pending.push(entry);
        } else {
            let encoded = encode_pending(cipher, entry.state_id.as_str(), entry.pending);
            if encoded.is_err() {
                proof {
                    assert(!nonces_sealable(key@, waiting)) by {
                        assert(waiting[i] == entry);
                    }
                }
                return Err(encoded.unwrap_err());
            }
            let sealed_login = encoded.unwrap();
            pending.push(PendingEntry { state_id: entry.state_id, pending: sealed_login });
            nonces_changed = true;
        }
        proof {
            let done = waiting.take(i + 1);
            assert(pending@ == before.push(pending@.last()));
            assert forall|k: int| 0 <= k < done.len() implies {
                let b = #[trigger] done[k];
                let a = pending@[k];
                &&& a.state_id == b.state_id
                &&& a.pending == (PendingBrowserLogin {
                    browser_nonce: a.pending.browser_nonce,
                    ..b.pending
                })
                &&& nonce_read(key@, a.state_id@, a.pending) is Ok
                &&& nonce_read(key@, a.state_id@, a.pending)->Ok_0 == secret_of(
                    b.pending.browser_nonce@,
                    nonce_read(key@, b.state_id@, b.pending),
                )
                &&& sealed(b.pending.browser_nonce@) ==> a.pending == b.pending
            } by {
                if k < i {
                    assert(done[k] == waiting.take(i)[k]);
                    assert(pending@[k] == before[k]);
                }
            }
            if nonces_changed {
                if !any_plain_nonce(waiting.take(i)) {
                    assert(!sealed(done[i].pending.browser_nonce@));
                }
            }
            if any_plain_nonce(done) {
                let k = choose|k: int|
                    0 <= k < done.len() && !sealed((#[trigger] done[k]).pending.browser_nonce@);
                if k < i {
                    assert(done[k] == waiting.take(i)[k]);
                }
            }
        }
    }
    assert(waiting.take(m as int) == waiting);
    proof {
        if !any_plain_nonce(waiting) {
            assert forall|k: int| 0 <= k < waiting.len() implies pending@[k] == waiting[k] by {
                assert(sealed(waiting[k].pending.browser_nonce@));
            }
            assert(pending@ =~= waiting);
        }
    }
    Ok(changed || nonces_changed)
}

} // verus!
