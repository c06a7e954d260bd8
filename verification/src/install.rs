//! Registering a subsystem with the engine once per process.

use crate::codes::SQLITE_OK;
use crate::text::{push_signed_decimal, signed_decimal};
use vstd::prelude::*;
use vstd::string::*;

verus! {

/// Why a subsystem could not be registered: the engine's return code and a text
/// that names the likely cause.
#[derive(Debug)]
pub struct InstallError {
    pub code: i32,
    pub message: String,
}

impl InstallError {
    /// The text shown for this error.
    pub fn display(&self) -> (r: String)
        ensures
            r@ == self.message@ + " (code "@ + signed_decimal(self.code as int) + ")"@,
    {
        let mut r = String::from_str(self.message.as_str());
        r.append(" (code ");
        push_signed_decimal(&mut r, self.code as i64);
        r.append(")");
        assert(r@ =~= self.message@ + " (code "@ + signed_decimal(self.code as int) + ")"@);
        r
    }
}

/// Whether a subsystem is registered. The first caller registers it; later ones
/// find it done. A registration that fails may be tried again.
pub struct InstallGate {
    installed: bool,
}

impl View for InstallGate {
    type V = bool;

    closed spec fn view(&self) -> bool {
        self.installed
    }
}

impl InstallGate {
    /// Nothing is registered yet.
    pub fn new() -> (r: Self)
        ensures
            !r@,
    {
        InstallGate { installed: false }
    }

    /// Claims the registration: `true` if the caller has to make it and report
    /// the engine's answer with `finish`, `false` if it is already made.
    pub fn claim(&mut self) -> (r: bool)
        ensures
            r == !old(self)@,
            final(self)@,
    {
        let first: bool = !self.installed;
        self.installed = true;
        first
    }

    /// Settles a claimed registration by the engine's answer `rc`. On failure
    /// the claim is given up and the error carries `message`.
    pub fn finish(&mut self, rc: i32, message: &str) -> (r: Result<(), InstallError>)
        requires
            old(self)@,
        ensures
            final(self)@ == (rc == SQLITE_OK),
            match r {
                Ok(()) => rc == SQLITE_OK,
                Err(e) => rc != SQLITE_OK && e.code == rc && e.message@ == message@,
            },
    {
        if rc != SQLITE_OK {
            self.installed = false;
            return Err(InstallError { code: rc, message: String::from_str(message) });
        }
        Ok(())
    }

    /// Whether the subsystem is registered.
    pub fn is_installed(&self) -> (r: bool)
        ensures
            r == self@,
    {
        self.installed
    }
}

/// How a file system is registered.
#[derive(Debug, Clone, Copy, PartialEq, Eq, Structural)]
pub enum Registered {
    /// Not at all.
    No,
    /// Under its name.
    ByName,
    /// Under its name, and as the engine's default.
    AsDefault,
}

/// How a file system is registered, where one registration can add to another:
/// one that is known by its name may still become the default. What a request
/// asks for is settled by the engine's answer; a request that fails leaves what
/// was settled before, and may be made again.
pub struct DefaultGate {
    settled: Registered,
    asked: Registered,
}

/// How a file system is registered, as the model sees it: what the engine has
/// confirmed, and what was asked for.
pub struct GateModel {
    pub settled: Registered,
    pub asked: Registered,
}

impl View for DefaultGate {
    type V = GateModel;

    closed spec fn view(&self) -> GateModel {
        GateModel { settled: self.settled, asked: self.asked }
    }
}

impl DefaultGate {
    /// Nothing is registered yet.
    pub fn new() -> (r: Self)
        ensures
            r@ == (GateModel { settled: Registered::No, asked: Registered::No }),
    {
        DefaultGate { settled: Registered::No, asked: Registered::No }
    }

    /// Asks for a registration: `true` if the caller has to make it and report
    /// the engine's answer with `finish`, `false` if there is nothing to add.
    pub fn claim(&mut self, make_default: bool) -> (r: bool)
        ensures
            final(self)@.settled == old(self)@.settled,
            if make_default {
                r == (old(self)@.asked != Registered::AsDefault) && final(self)@.asked
                    == Registered::AsDefault
            } else if old(self)@.asked == Registered::No {
                r && final(self)@.asked == Registered::ByName
            } else {
                !r && final(self)@.asked == old(self)@.asked
            },
    {
        if make_default {
            let first: bool = self.asked != Registered::AsDefault;
            self.asked = Registered::AsDefault;
            return first;
        }
        if self.asked == Registered::No {
            self.asked = Registered::ByName;
            return true;
        }
        false
    }

    /// Settles what was asked for by the engine's answer `rc`. On failure what
    /// was settled before stays, and the error carries `message`.
    pub fn finish(&mut self, rc: i32, message: &str) -> (r: Result<(), InstallError>)
        ensures
            final(self)@.settled == final(self)@.asked,
            final(self)@.settled == if rc == SQLITE_OK {
                old(self)@.asked
            } else {
                old(self)@.settled
            },
            match r {
                Ok(()) => rc == SQLITE_OK,
                Err(e) => rc != SQLITE_OK && e.code == rc && e.message@ == message@,
            },
    {
        if rc != SQLITE_OK {
            self.asked = self.settled;
            return Err(InstallError { code: rc, message: String::from_str(message) });
        }
        self.settled = self.asked;
        Ok(())
    }

    /// Whether the file system is registered, or about to be.
    pub fn is_installed(&self) -> (r: bool)
        ensures
            r == (self@.asked != Registered::No),
    {
        self.asked != Registered::No
    }
}

} // verus!
