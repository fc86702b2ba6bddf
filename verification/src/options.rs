use vstd::prelude::*;
use vstd::string::StringExecFns;

verus! {

/// What to do when the connection to the broker is lost.
#[derive(Clone, Copy, PartialEq, Eq, Structural, Debug)]
pub enum ReconnectMethod {
    /// Terminate the session; the delivery channel closes.
    ForeverDisconnect,
    /// Wait this many milliseconds, then try to establish again.
    ReconnectAfter(u64),
}

impl ReconnectMethod {
    /// The delay before a retry, or `None` when the session must end.
    pub open spec fn spec_retry_delay_ms(self) -> Option<u64> {
        match self {
            ReconnectMethod::ForeverDisconnect => None,
            ReconnectMethod::ReconnectAfter(ms) => Some(ms),
        }
    }

    /// Decides the reconnect policy after a fatal error: `Some(delay)` to
    /// retry after that many milliseconds, `None` to end the session.
    pub fn retry_delay_ms(&self) -> (r: Option<u64>)
        ensures
            r == self.spec_retry_delay_ms(),
    {
        match self {
            ReconnectMethod::ForeverDisconnect => None,
            ReconnectMethod::ReconnectAfter(ms) => Some(*ms),
        }
    }
}

/// Identity and policy of a session, immutable once the engine is started.
#[derive(Clone, Debug)]
pub struct ClientOptions {
    /// Keep-alive interval in seconds.
    pub keep_alive: Option<u16>,
    /// Whether the broker must discard prior session state.
    pub clean_session: bool,
    /// Client identifier; generated if still `None` at connect time.
    pub client_id: Option<String>,
    /// Optional credential.
    pub username: Option<String>,
    /// Optional credential.
    pub password: Option<String>,
    /// Policy after a fatal connection error.
    pub reconnect: ReconnectMethod,
}

/// The fixed prefix of generated client identifiers.
pub open spec fn client_id_prefix() -> Seq<char> {
    seq!['m', 'q', 't', 't', 'c', '_']
}

/// The character for one decimal digit.
pub open spec fn digit_char(d: nat) -> char {
    if d == 0 {
        '0'
    } else if d == 1 {
        '1'
    } else if d == 2 {
        '2'
    } else if d == 3 {
        '3'
    } else if d == 4 {
        '4'
    } else if d == 5 {
        '5'
    } else if d == 6 {
        '6'
    } else if d == 7 {
        '7'
    } else if d == 8 {
        '8'
    } else {
        '9'
    }
}

/// The decimal digits of `n`, most significant first.
pub open spec fn dec_digits(n: nat) -> Seq<char>
    decreases n,
{
    if n < 10 {
        seq![digit_char(n)]
    } else {
        dec_digits(n / 10).push(digit_char(n % 10))
    }
}

/// Relies on `rand::random`: draws a machine random 32-bit value.  Nothing
/// can be promised of the outcome, so this has no `ensures`.
#[verifier::external_body]
fn random_u32() -> u32 {
    rand::random::<u32>()
}

/// Appends the decimal rendering of `n` to `s`.
fn push_decimal(s: &mut String, n: u32)
    ensures
        final(s)@ == old(s)@ + dec_digits(n as nat),
    decreases n,
{
    if n >= 10 {
        proof {
            assert(n as nat / 10 < n as nat) by (nonlinear_arith)
                requires
                    n >= 10,
            ;
        }
        push_decimal(s, n / 10);
    }
    let d: u32 = n % 10;
    match d {
        0 => {
            s.append("0");
            proof {
                reveal_strlit("0");
                assert("0"@ =~= seq![digit_char(d as nat)]);
            }
        },
        1 => {
            s.append("1");
            proof {
                reveal_strlit("1");
                assert("1"@ =~= seq![digit_char(d as nat)]);
            }
        },
        2 => {
            s.append("2");
            proof {
                reveal_strlit("2");
                assert("2"@ =~= seq![digit_char(d as nat)]);
            }
        },
        3 => {
            s.append("3");
            proof {
                reveal_strlit("3");
                assert("3"@ =~= seq![digit_char(d as nat)]);
            }
        },
        4 => {
            s.append("4");
            proof {
                reveal_strlit("4");
                assert("4"@ =~= seq![digit_char(d as nat)]);
            }
        },
        5 => {
            s.append("5");
            proof {
                reveal_strlit("5");
                assert("5"@ =~= seq![digit_char(d as nat)]);
            }
        },
        6 => {
            s.append("6");
            proof {
                reveal_strlit("6");
                assert("6"@ =~= seq![digit_char(d as nat)]);
            }
        },
        7 => {
            s.append("7");
            proof {
                reveal_strlit("7");
                assert("7"@ =~= seq![digit_char(d as nat)]);
            }
        },
        8 => {
            s.append("8");
            proof {
                reveal_strlit("8");
                assert("8"@ =~= seq![digit_char(d as nat)]);
            }
        },
        9 => {
            s.append("9");
            proof {
                reveal_strlit("9");
                assert("9"@ =~= seq![digit_char(d as nat)]);
            }
        },
        _ => {
            proof {
                assert(false);
            }
        },
    }
}

impl ClientOptions {
    /// Builds options with the default policy: a 5 second keep-alive, a
    /// clean session, no identity or credentials, and no reconnect.
    pub fn new() -> (r: ClientOptions)
        ensures
            r.keep_alive == Some(5u16),
            r.clean_session == true,
            r.client_id is None,
            r.username is None,
            r.password is None,
            r.reconnect == ReconnectMethod::ForeverDisconnect,
    {
        ClientOptions {
            keep_alive: Some(5),
            clean_session: true,
            client_id: None,
            username: None,
            password: None,
            reconnect: ReconnectMethod::ForeverDisconnect,
        }
    }

    /// Sets the keep-alive interval in seconds.
    pub fn set_keep_alive(&mut self, secs: u16)
        ensures
            *final(self) == (ClientOptions { keep_alive: Some(secs), ..*old(self) }),
    {
        self.keep_alive = Some(secs);
    }

    /// Sets the client identifier.
    pub fn set_client_id(&mut self, client_id: String)
        ensures
            *final(self) == (ClientOptions { client_id: Some(client_id), ..*old(self) }),
    {
        self.client_id = Some(client_id);
    }

    /// Sets the clean-session flag.
    pub fn set_clean_session(&mut self, clean_session: bool)
        ensures
            *final(self) == (ClientOptions { clean_session, ..*old(self) }),
    {
        self.clean_session = clean_session;
    }

    /// Generates a fresh client identifier from a random token.
    pub fn generate_client_id(&mut self)
        ensures
            final(self).client_id matches Some(id) && exists|n: nat|
                id@ == client_id_prefix() + dec_digits(n),
            final(self).keep_alive == old(self).keep_alive,
            final(self).clean_session == old(self).clean_session,
            final(self).username == old(self).username,
            final(self).password == old(self).password,
            final(self).reconnect == old(self).reconnect,
    {
        let token: u32 = random_u32();
        let mut id = String::new();
        id.append("mqttc_");
        proof {
            reveal_strlit("mqttc_");
            assert("mqttc_"@ =~= client_id_prefix());
            assert(id@ =~= client_id_prefix());
        }
        push_decimal(&mut id, token);
        proof {
            assert(id@ == client_id_prefix() + dec_digits(token as nat));
        }
        self.client_id = Some(id);
    }

    /// Sets the username credential.
    pub fn set_username(&mut self, username: String)
        ensures
            *final(self) == (ClientOptions { username: Some(username), ..*old(self) }),
    {
        self.username = Some(username);
    }

    /// Sets the password credential.
    pub fn set_password(&mut self, password: String)
        ensures
            *final(self) == (ClientOptions { password: Some(password), ..*old(self) }),
    {
        self.password = Some(password);
    }

    /// Sets the reconnect policy.
    pub fn set_reconnect(&mut self, reconnect: ReconnectMethod)
        ensures
            *final(self) == (ClientOptions { reconnect, ..*old(self) }),
    {
        self.reconnect = reconnect;
    }
}

} // verus!
