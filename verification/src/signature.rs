use vstd::prelude::*;
use vstd::string::*;
use crate::error::RepoError;
use crate::repo::{AUTOMATED_EMAIL, AUTOMATED_NAME};
use crate::store::git_signature_new;

verus! {

/// A point in time as a signature holds it: seconds since the epoch, and
/// the offset of the time zone in minutes.
#[derive(Clone, Copy, Debug, PartialEq, Eq, Structural)]
pub struct Time {
    pub seconds: i64,
    pub offset_minutes: i32,
}

impl Time {
    /// The seconds since the epoch as a clock counts them. A time before
    /// the epoch is refused.
    pub fn to_unix_seconds(&self) -> (res: Result<u64, RepoError>)
        ensures
            self.seconds >= 0 ==> res == Ok::<u64, RepoError>(self.seconds as u64),
            self.seconds < 0 ==> (res matches Err(e) && e is TimeOutOfRange),
    {
        if self.seconds >= 0 {
            Ok(self.seconds as u64)
        } else {
            Err(RepoError::TimeOutOfRange)
        }
    }
}

/// Who made a commit, and when. A name or an address that is not valid
/// UTF-8 is `None`.
#[derive(Debug)]
pub struct Signature {
    pub name: Option<String>,
    pub email: Option<String>,
    pub time: Time,
}

/// A name and an address as one line: the name, then the address in
/// angle brackets.
pub open spec fn spec_friendly_describe(name: Option<Seq<char>>, email: Option<Seq<char>>) -> Option<
    Seq<char>,
> {
    match (name, email) {
        (Some(n), Some(e)) => Some(n + " "@ + "<"@ + e + ">"@),
        (Some(n), None) => Some(n),
        (None, Some(e)) => Some("<"@ + e + ">"@),
        (None, None) => None,
    }
}

impl Signature {
    /// The view of an optional string.
    pub open spec fn text_of(text: Option<String>) -> Option<Seq<char>> {
        match text {
            Some(t) => Some(t@),
            None => None,
        }
    }

    /// The signature under which this library writes its helper commits.
    pub fn automated() -> (res: Signature)
        ensures
            Signature::text_of(res.name) == Some(AUTOMATED_NAME@),
            Signature::text_of(res.email) == Some(AUTOMATED_EMAIL@),
            res.time == (Time { seconds: 0, offset_minutes: 0 }),
    {
        Signature {
            name: Some(String::from_str(AUTOMATED_NAME)),
            email: Some(String::from_str(AUTOMATED_EMAIL)),
            time: Time { seconds: 0, offset_minutes: 0 },
        }
    }

    /// The signature with its time set to `now`, in seconds since the
    /// epoch; the offset of the time zone stays, and the name and the
    /// address are what the store makes of them, which cuts off spaces and
    /// marks at their ends. Fails where the time does not fit, where the
    /// name or the address is not text, or where the store does not take
    /// them.
    pub fn update_timestamp(self, now: u64) -> (res: Result<Signature, RepoError>)
        ensures
            now > i64::MAX ==> (res matches Err(e) && e is TimeOutOfRange),
            now <= i64::MAX && (self.name is None || self.email is None) ==> (res matches Err(e)
                && e is UndecodableSignature),
            res matches Ok(updated) ==> updated.time == (Time {
                seconds: now as i64,
                offset_minutes: self.time.offset_minutes,
            }),
            res matches Ok(updated) ==> self.name is Some && self.email is Some
                && Signature::text_of(updated.name) == Some(
                crate::store::spec_signature_texts(self.name->Some_0@, self.email->Some_0@).0,
            ) && Signature::text_of(updated.email) == Some(
                crate::store::spec_signature_texts(self.name->Some_0@, self.email->Some_0@).1,
            ),
            res matches Err(e) ==> e is TimeOutOfRange || e is UndecodableSignature || e is Store,
    {
        if now > 0x7fff_ffff_ffff_ffff {
            return Err(RepoError::TimeOutOfRange);
        }
        let seconds = now as i64;
        let offset_minutes = self.time.offset_minutes;
        let name = match &self.name {
            Some(name) => name,
            None => {
                return Err(RepoError::UndecodableSignature);
            },
        };
        let email = match &self.email {
            Some(email) => email,
            None => {
                return Err(RepoError::UndecodableSignature);
            },
        };
        match git_signature_new(name.as_str(), email.as_str(), seconds, offset_minutes) {
            Ok((name, email)) => Ok(
                Signature { name, email, time: Time { seconds, offset_minutes } },
            ),
            Err(e) => Err(RepoError::from_git(e)),
        }
    }

    /// When the signature was made.
    pub fn get_time(&self) -> (res: Time)
        ensures
            res == self.time,
    {
        self.time
    }

    pub fn get_name(&self) -> (res: Option<&str>)
        ensures
            res is Some == self.name is Some,
            res matches Some(n) ==> n@ == self.name->Some_0@,
    {
        match &self.name {
            Some(name) => Some(name.as_str()),
            None => None,
        }
    }

    pub fn get_email(&self) -> (res: Option<&str>)
        ensures
            res is Some == self.email is Some,
            res matches Some(e) ==> e@ == self.email->Some_0@,
    {
        match &self.email {
            Some(email) => Some(email.as_str()),
            None => None,
        }
    }

    /// The name and the address as one line.
    pub fn friendly_describe(&self) -> (res: Option<String>)
        ensures
            Signature::text_of(res) == spec_friendly_describe(
                Signature::text_of(self.name),
                Signature::text_of(self.email),
            ),
    {
        match (&self.name, &self.email) {
            (Some(name), Some(email)) => {
                let mut out = name.clone();
                out.append(" ");
                out.append("<");
                out.append(email.as_str());
                out.append(">");
                Some(out)
            },
            (Some(name), None) => Some(name.clone()),
            (None, Some(email)) => {
                let mut out = String::from_str("<");
                out.append(email.as_str());
                out.append(">");
                Some(out)
            },
            (None, None) => None,
        }
    }
}

} // verus!
