use vstd::prelude::*;

use crate::driver::Driver;
use crate::driver::csrf_key_free;
use crate::driver::service_present;
use crate::entity::Csrf;
use crate::entity::Service;
use crate::error::CoreError;
use crate::entity::Key;
use crate::key::KEY_VALUE_BYTES;
use crate::trusted::url_parse_ok;
use crate::trusted::url_with_query;
use crate::trusted::url_with_query_of;
use crate::util::lower_chars;

verus! {

/// The provider's callback parameters.
pub struct CallbackQuery {
    pub code: String,
    pub state: String,
}

/// The authorize-phase answer: the provider URL to send the
/// user-agent to.
pub struct UrlResponse {
    pub url: String,
}

/// A token minted for a locally resolved user.
pub struct TokenData {
    pub user_id: u128,
    pub token: String,
}

/// A third-party identity provider, as configured: endpoints and
/// client credentials, held as plain text.
pub struct Client {
    pub server_authorize_uri: String,
    pub server_token_uri: String,
    pub server_introspect_uri: String,
    pub client_id: String,
    pub client_secret: String,
    pub redirect_uri: String,
    pub client_name: String,
    pub client_uri: String,
    pub enable: bool,
    pub scope: String,
    pub user_scope: String,
    pub register_enable: bool,
    pub register_scope: String,
    pub ttl: i64,
}

impl Client {
    pub fn client_name(&self) -> (r: String)
        ensures
            r == self.client_name,
    {
        self.client_name.clone()
    }

    pub fn client_uri(&self) -> (r: String)
        ensures
            r == self.client_uri,
    {
        self.client_uri.clone()
    }

    pub fn server_authorize_uri(&self) -> (r: String)
        ensures
            r == self.server_authorize_uri,
    {
        self.server_authorize_uri.clone()
    }

    pub fn server_token_uri(&self) -> (r: String)
        ensures
            r == self.server_token_uri,
    {
        self.server_token_uri.clone()
    }

    pub fn server_introspect_uri(&self) -> (r: String)
        ensures
            r == self.server_introspect_uri,
    {
        self.server_introspect_uri.clone()
    }

    pub fn client_id(&self) -> (r: String)
        ensures
            r == self.client_id,
    {
        self.client_id.clone()
    }

    pub fn client_secret(&self) -> (r: String)
        ensures
            r == self.client_secret,
    {
        self.client_secret.clone()
    }

    pub fn redirect_uri(&self) -> (r: String)
        ensures
            r == self.redirect_uri,
    {
        self.redirect_uri.clone()
    }
}

/// Saturating addition, for expiry arithmetic at the ends of the
/// clock's range.
pub open spec fn sat_add_i64(a: i64, b: i64) -> i64 {
    if a + b > i64::MAX {
        i64::MAX
    } else if a + b < i64::MIN {
        i64::MIN
    } else {
        (a + b) as i64
    }
}

fn sat_add_i64_exec(a: i64, b: i64) -> (r: i64)
    ensures
        r == sat_add_i64(a, b),
{
    if b >= 0 {
        if a > i64::MAX - b {
            i64::MAX
        } else {
            a + b
        }
    } else {
        if a < i64::MIN - b {
            i64::MIN
        } else {
            a + b
        }
    }
}

/// The query string of the provider authorize URL.
pub open spec fn authorize_query_of(c: Client, state: Seq<char>) -> Seq<char> {
    "response_type=code&client_id="@ + c.client_id@ + "&redirect_uri="@ + c.redirect_uri@
        + "&scope="@ + c.scope@ + "&state="@ + state
}

/// Authorize phase: generate a single-use `state`, persist it against
/// the calling service with its expiry, and return the provider's
/// authorize URL carrying our redirect target and that `state`.
///
/// A provider URL that does not parse is `BadRequest`; a colliding
/// random state value is `Conflict`, with nothing persisted.
pub fn oauth2_authorize(driver: &mut Driver, client: &Client, service_id: u128, now: i64) -> (r:
    Result<String, CoreError>)
    requires
        old(driver).wf(),
    ensures
        final(driver).wf(),
        final(driver).keys == old(driver).keys,
        final(driver).services == old(driver).services,
        final(driver).users == old(driver).users,
        final(driver).audits == old(driver).audits,
        !url_parse_ok(client.server_authorize_uri@) ==> r == Err::<String, CoreError>(
            CoreError::BadRequest,
        ) && final(driver).csrfs == old(driver).csrfs,
        r matches Ok(u) ==> exists|st: Seq<char>, c: Csrf|
            {
                &&& st.len() == 2 * KEY_VALUE_BYTES
                &&& u@ == url_with_query_of(
                    client.server_authorize_uri@,
                    authorize_query_of(*client, st),
                )
                &&& c.key@ == st
                &&& c.service_id == service_id
                &&& c.provider@ == client.client_name@
                &&& c.created_at == now
                &&& c.expires_at == sat_add_i64(now, client.ttl)
                &&& final(driver).csrfs@ == old(driver).csrfs@.push(c)
            },
        r is Err ==> final(driver).csrfs == old(driver).csrfs && (r == Err::<String, CoreError>(
            CoreError::BadRequest,
        ) || r == Err::<String, CoreError>(CoreError::Conflict)),
{
    let state = Key::value_generate();
    let query = String::from_str("response_type=code&client_id=").concat(
        client.client_id.as_str(),
    ).concat("&redirect_uri=").concat(client.redirect_uri.as_str()).concat("&scope=").concat(
        client.scope.as_str(),
    ).concat("&state=").concat(state.as_str());
    match url_with_query(client.server_authorize_uri.as_str(), query.as_str()) {
        None => Err(CoreError::BadRequest),
        Some(u) => {
            let expires_at = sat_add_i64_exec(now, client.ttl);
            match driver.csrf_create(
                state.as_str(),
                service_id,
                client.client_name.as_str(),
                now,
                expires_at,
            ) {
                Ok(_) => Ok(u),
                Err(_) => Err(CoreError::Conflict),
            }
        },
    }
}

/// The stored `state` record accepts this callback: not yet expired
/// and presented by the provider it was issued for.
pub open spec fn csrf_accepts(c: Csrf, provider: Seq<char>, now: i64) -> bool {
    c.expires_at >= now && c.provider@ == provider
}

/// Callback phase, step one: consume the `state`. The record is
/// removed whatever the outcome — a second callback with the same
/// `state`, or an expired or wrong-provider one, is `BadRequest`.
pub fn oauth2_callback_state(driver: &mut Driver, state: &str, provider: &str, now: i64) -> (r:
    Result<u128, CoreError>)
    requires
        old(driver).wf(),
    ensures
        final(driver).wf(),
        final(driver).keys == old(driver).keys,
        final(driver).services == old(driver).services,
        final(driver).users == old(driver).users,
        final(driver).audits == old(driver).audits,
        csrf_key_free(final(driver).csrfs@, state@),
        r is Ok <==> exists|i: int|
            0 <= i < old(driver).csrfs@.len() && old(driver).csrfs@[i].key@ == state@
                && csrf_accepts(old(driver).csrfs@[i], provider@, now),
        r matches Ok(sid) ==> exists|i: int|
            0 <= i < old(driver).csrfs@.len() && old(driver).csrfs@[i].key@ == state@
                && csrf_accepts(old(driver).csrfs@[i], provider@, now) && sid == old(
                driver,
            ).csrfs@[i].service_id,
        r is Err ==> r == Err::<u128, CoreError>(CoreError::BadRequest),
        !(exists|i: int| 0 <= i < old(driver).csrfs@.len() && old(driver).csrfs@[i].key@ == state@)
            ==> final(driver).csrfs == old(driver).csrfs,
{
    let p: String = provider.to_owned();
    match driver.csrf_pop(state) {
        None => Err(CoreError::BadRequest),
        Some(c) => {
            proof {
                let s = old(driver).csrfs@;
                let w = choose|i: int| 0 <= i < s.len() && s[i] == c;
                assert forall|i: int|
                    0 <= i < s.len() && s[i].key@ == state@ implies s[i] == c by {
                    if i != w {
                        assert(s[i].key@ != s[w].key@);
                    }
                }
            }
            if c.expires_at < now {
                return Err(CoreError::BadRequest);
            }
            if c.provider != p {
                return Err(CoreError::BadRequest);
            }
            Ok(c.service_id)
        },
    }
}

/// A user of the service is registered under the lowered email.
pub open spec fn login_user_present(d: Driver, service_id: u128, email_low: Seq<char>) -> bool {
    exists|u: int|
        0 <= u < d.users@.len() && d.users@[u].service_id == service_id && d.users@[u].email@
            == email_low
}

/// The registered user already holds a key bound to the service: the
/// one situation in which a login mints nothing and so cannot fail.
pub open spec fn login_key_present(d: Driver, service_id: u128, email_low: Seq<char>) -> bool {
    exists|u: int, k: int|
        {
            &&& 0 <= u < d.users@.len()
            &&& d.users@[u].service_id == service_id
            &&& d.users@[u].email@ == email_low
            &&& 0 <= k < d.keys@.len()
            &&& d.keys@[k].service_id == Some(service_id)
            &&& d.keys@[k].user_id == Some(d.users@[u].id)
        }
}

/// Callback phase, final step: bind the provider-verified email to a
/// local user of the calling service and mint a local token — the
/// user's key value, created fresh when the user has none yet.
///
/// An unknown service is `NotFound`, exactly; an email with no local
/// user is `Forbidden`, exactly. When the user's key already exists
/// the login succeeds; only the mint path may fail, on a colliding
/// random identifier or value.
pub fn oauth2_login(driver: &mut Driver, email: &str, service_id: u128) -> (r: Result<
    (TokenData, Service),
    CoreError,
>)
    requires
        old(driver).wf(),
    ensures
        final(driver).wf(),
        final(driver).services == old(driver).services,
        final(driver).users == old(driver).users,
        final(driver).audits == old(driver).audits,
        final(driver).csrfs == old(driver).csrfs,
        r == Err::<(TokenData, Service), CoreError>(CoreError::NotFound) <==> !service_present(
            old(driver).services@,
            service_id,
        ),
        r == Err::<(TokenData, Service), CoreError>(CoreError::Forbidden) <==> (
        service_present(old(driver).services@, service_id) && !login_user_present(
            *old(driver),
            service_id,
            lower_chars(email@),
        )),
        (service_present(old(driver).services@, service_id) && login_key_present(
            *old(driver),
            service_id,
            lower_chars(email@),
        )) ==> r is Ok,
        r == Err::<(TokenData, Service), CoreError>(CoreError::Driver(
            crate::error::DriverError::Conflict,
        )) ==> (service_present(old(driver).services@, service_id) && login_user_present(
            *old(driver),
            service_id,
            lower_chars(email@),
        ) && !login_key_present(*old(driver), service_id, lower_chars(email@))),
        r matches Ok((t, s)) ==> {
            &&& s.id == service_id
            &&& old(driver).services@.contains(s)
            &&& exists|u: int, k: int|
                {
                    &&& 0 <= u < old(driver).users@.len()
                    &&& old(driver).users@[u].service_id == service_id
                    &&& old(driver).users@[u].email@ == lower_chars(email@)
                    &&& 0 <= k < final(driver).keys@.len()
                    &&& final(driver).keys@[k].service_id == Some(service_id)
                    &&& final(driver).keys@[k].user_id == Some(old(driver).users@[u].id)
                    &&& t.token == final(driver).keys@[k].value
                    &&& t.user_id == old(driver).users@[u].id
                }
        },
        r is Err ==> final(driver).keys == old(driver).keys && (r == Err::<
            (TokenData, Service),
            CoreError,
        >(CoreError::NotFound) || r == Err::<(TokenData, Service), CoreError>(
            CoreError::Forbidden,
        ) || r == Err::<(TokenData, Service), CoreError>(CoreError::Driver(
            crate::error::DriverError::Conflict,
        ))),
{
    let service = match driver.service_read_by_id(service_id, None) {
        Some(s) => s,
        None => {
            return Err(CoreError::NotFound);
        },
    };
    let email_n = crate::trusted::ascii_lowercase(email);
    let user = match driver.user_read_by_email(service_id, email_n.as_str()) {
        Some(u) => u,
        None => {
            proof {
                assert(!login_user_present(*old(driver), service_id, lower_chars(email@)));
            }
            return Err(CoreError::Forbidden);
        },
    };
    proof {
        let d0 = *old(driver);
        let low = lower_chars(email@);
        let w = choose|i: int| 0 <= i < d0.users@.len() && d0.users@[i] == user;
        assert(d0.users@[w].service_id == service_id && d0.users@[w].email@ == low);
        assert(login_user_present(d0, service_id, low));
        assert forall|u: int|
            0 <= u < d0.users@.len() && d0.users@[u].service_id == service_id
                && d0.users@[u].email@ == low implies d0.users@[u].id == user.id by {
            if u != w {
                assert(!(d0.users@[u].service_id == d0.users@[w].service_id
                    && d0.users@[u].email@ == d0.users@[w].email@));
            }
        }
        if login_key_present(d0, service_id, low) {
            let (u, k) = choose|u: int, k: int|
                {
                    &&& 0 <= u < d0.users@.len()
                    &&& d0.users@[u].service_id == service_id
                    &&& d0.users@[u].email@ == low
                    &&& 0 <= k < d0.keys@.len()
                    &&& d0.keys@[k].service_id == Some(service_id)
                    &&& d0.keys@[k].user_id == Some(d0.users@[u].id)
                };
            assert(d0.users@[u].id == user.id);
            assert(exists|k2: int|
                0 <= k2 < d0.keys@.len() && d0.keys@[k2].service_id == Some(service_id)
                    && d0.keys@[k2].user_id == Some(user.id));
        }
    }
    match driver.key_read_by_user_id(service_id, user.id) {
        Some(k) => {
            proof {
                let ks = driver.keys@;
                let w = choose|i: int| 0 <= i < ks.len() && ks[i] == k;
                assert(final(driver).keys@[w] == k);
            }
            Ok((TokenData { user_id: user.id, token: k.value }, service))
        },
        None => {
            proof {
                assert(!login_key_present(*old(driver), service_id, lower_chars(email@)));
            }
            let value = Key::value_generate();
            let id = crate::trusted::uuid_generate();
            let now = crate::trusted::time_now_ms();
            match driver.key_create(
                id,
                now,
                true,
                false,
                user.name.as_str(),
                value.as_str(),
                Some(service_id),
                Some(user.id),
            ) {
                Ok(k) => {
                    proof {
                        let j = choose|j: int|
                            0 <= j <= old(driver).keys@.len() && final(driver).keys@ == old(
                                driver,
                            ).keys@.insert(j, k);
                        old(driver).keys@.insert_ensures(j, k);
                        assert(final(driver).keys@[j] == k);
                    }
                    Ok((TokenData { user_id: user.id, token: k.value }, service))
                },
                Err(e) => Err(CoreError::Driver(e)),
            }
        },
    }
}

/// Issue the redirect that closes the flow: the originating service's
/// URL with the minted token as its query. A service URL that does not
/// parse is `BadRequest`.
pub fn oauth2_redirect(token: TokenData, service: Service) -> (r: Result<String, CoreError>)
    ensures
        r is Ok <==> url_parse_ok(service.url@),
        r matches Ok(l) ==> l@ == url_with_query_of(service.url@, "token="@ + token.token@),
        r is Err ==> r == Err::<String, CoreError>(CoreError::BadRequest),
{
    let token_query = String::from_str("token=").concat(token.token.as_str());
    match url_with_query(service.url.as_str(), token_query.as_str()) {
        Some(l) => Ok(l),
        None => Err(CoreError::BadRequest),
    }
}

} // verus!
