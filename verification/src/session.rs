//! Session ownership: the password table, and the binding of each player
//! identity to the one connection address allowed to act for it.
use crate::pieces::Color;
use vstd::prelude::*;

verus! {

/// The network address of a connection: four IPv4 octets and a port.
#[derive(PartialEq, Eq, Hash, Copy, Clone, Debug, Structural)]
pub struct Addr {
    pub ip0: u8,
    pub ip1: u8,
    pub ip2: u8,
    pub ip3: u8,
    pub port: u16,
}

/// Why an authentication was refused.
#[derive(PartialEq, Eq, Copy, Clone, Debug, Structural)]
pub enum AuthError {
    /// The credential is in no row of the password table.
    InvalidCredential,
}

/// The password table: one credential for each player identity, fixed at
/// startup.
#[derive(Debug)]
pub struct Passwords {
    pub white: String,
    pub black: String,
}

impl Passwords {
    /// The player identity a credential names. When both rows hold the
    /// same text it names Black, whose row is entered last at startup.
    pub open spec fn spec_lookup(self, credential: Seq<char>) -> Option<Color> {
        if credential == self.black@ {
            Some(Color::Black)
        } else if credential == self.white@ {
            Some(Color::White)
        } else {
            None
        }
    }

    /// Looks a credential up in the table.
    pub fn lookup(&self, credential: &String) -> (r: Option<Color>)
        ensures
            r == self.spec_lookup(credential@),
    {
        if credential.eq(&self.black) {
            Some(Color::Black)
        } else if credential.eq(&self.white) {
            Some(Color::White)
        } else {
            None
        }
    }
}

/// The session ownership table: for each player identity, the address of
/// the one connection currently authorized to act for it.
#[derive(Debug)]
pub struct Authentication {
    pub white_addr: Option<Addr>,
    pub black_addr: Option<Addr>,
}

impl Authentication {
    /// The address bound to a player identity.
    pub open spec fn spec_addr_of(self, color: Color) -> Option<Addr> {
        if color == Color::White {
            self.white_addr
        } else {
            self.black_addr
        }
    }

    /// The table with `color` bound to `addr`.
    pub open spec fn spec_bind(self, color: Color, addr: Addr) -> Authentication {
        if color == Color::White {
            Authentication { white_addr: Some(addr), black_addr: self.black_addr }
        } else {
            Authentication { white_addr: self.white_addr, black_addr: Some(addr) }
        }
    }

    /// Reads the address bound to a player identity.
    pub fn addr_of(&self, color: Color) -> (r: Option<Addr>)
        ensures
            r == self.spec_addr_of(color),
    {
        match color {
            Color::White => self.white_addr,
            Color::Black => self.black_addr,
        }
    }

    /// Binds a player identity to an address, returning the previous
    /// holder.
    pub fn bind(&mut self, color: Color, addr: Addr) -> (prev: Option<Addr>)
        ensures
            *final(self) == old(self).spec_bind(color, addr),
            prev == old(self).spec_addr_of(color),
    {
        match color {
            Color::White => {
                let prev = self.white_addr;
                self.white_addr = Some(addr);
                prev
            },
            Color::Black => {
                let prev = self.black_addr;
                self.black_addr = Some(addr);
                prev
            },
        }
    }
}

/// What one authentication call does: the ownership table afterwards, the
/// player identity granted, and the address whose connection is evicted.
/// A connection is evicted exactly when the credential names an identity
/// that a different address held.
pub open spec fn auth_step(
    passwords: Passwords,
    auth: Authentication,
    credential: Seq<char>,
    addr: Addr,
) -> (Authentication, Option<Color>, Option<Addr>) {
    match passwords.spec_lookup(credential) {
        None => (auth, None::<Color>, None::<Addr>),
        Some(color) => {
            let evicted = match auth.spec_addr_of(color) {
                Some(prev) => if prev != addr {
                    Some(prev)
                } else {
                    None
                },
                None => None,
            };
            (auth.spec_bind(color, addr), Some(color), evicted)
        },
    }
}

/// Authenticates a caller: looks the credential up and, on a hit, binds
/// the named identity to the caller's address. The second result is the
/// address of the connection that binding evicted, if any.
pub fn authenticate(
    passwords: &Passwords,
    auth: &mut Authentication,
    credential: &String,
    caller: Addr,
) -> (r: (Result<Color, AuthError>, Option<Addr>))
    ensures
        *final(auth) == auth_step(*passwords, *old(auth), credential@, caller).0,
        (match auth_step(*passwords, *old(auth), credential@, caller).1 {
            Some(color) => r.0 == Ok::<Color, AuthError>(color),
            None => r.0 == Err::<Color, AuthError>(AuthError::InvalidCredential),
        }),
        r.1 == auth_step(*passwords, *old(auth), credential@, caller).2,
{
    match passwords.lookup(credential) {
        None => (Err(AuthError::InvalidCredential), None),
        Some(color) => {
            let prev = auth.bind(color, caller);
            let evicted = match prev {
                Some(p) => if p != caller {
                    Some(p)
                } else {
                    None
                },
                None => None,
            };
            (Ok(color), evicted)
        },
    }
}

/// Exclusive ownership: after two successful authentications with one
/// credential, first from address `a` and then from a different address
/// `b`, the named identity is bound to `b` alone, the second call evicts
/// exactly `a`, and the first call evicts an address other than `a` or
/// none at all — so across the two calls exactly one eviction names `a`.
pub proof fn lemma_exclusive_ownership(
    passwords: Passwords,
    auth0: Authentication,
    credential: Seq<char>,
    color: Color,
    a: Addr,
    b: Addr,
)
    requires
        passwords.spec_lookup(credential) == Some(color),
        a != b,
    ensures
        ({
            let step1 = auth_step(passwords, auth0, credential, a);
            let step2 = auth_step(passwords, step1.0, credential, b);
            &&& step1.1 == Some(color)
            &&& step2.1 == Some(color)
            &&& step2.0.spec_addr_of(color) == Some(b)
            &&& step2.2 == Some(a)
            &&& step1.2 != Some(a)
        }),
{
}

} // verus!
