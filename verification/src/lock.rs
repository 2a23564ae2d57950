//! Advisory file-existence locks.
//!
//! A lock is held exactly while a file exists at its path. The lock is
//! cooperative: it survives a crash of its holder, and recovery is an
//! operator removing the stale file. Whether an operation succeeds depends
//! on the file system at that moment, so the contracts below pin the
//! lock's path and say nothing of the machine's state.

use vstd::prelude::*;

use crate::errors::LockError;
use crate::errors::MarkerError;
use crate::marker;
use vstd::string::StrSliceExecFns;

verus! {

/// How many times a blocking acquisition retries before giving up. The lock
/// only guards a commit's renames against a reader's reload, both short, so
/// a bounded retry either gets through in a few rounds or reports a stale
/// lock file that needs an operator.
pub const LOCK_RETRY_LIMIT: u64 = 10000;

/// `r` is the parent directory of the path `p`: the text before `p`'s last
/// separator, the root alone when that separator leads the path, and empty
/// when `p` has none.
pub open spec fn parent_text(p: Seq<char>, r: Seq<char>) -> bool {
    if exists|i: int| 0 <= i < p.len() && p[i] == '/' {
        exists|i: int|
            #![auto]
            {
                &&& 0 <= i < p.len()
                &&& p[i] == '/'
                &&& (forall|j: int| i < j < p.len() ==> p[j] != '/')
                &&& if i == 0 {
                    r =~= seq!['/']
                } else {
                    r =~= p.subrange(0, i)
                }
            }
    } else {
        r =~= Seq::<char>::empty()
    }
}

/// One advisory lock, named by the path of its lock file. Beside the path
/// it tracks, as ghost state, whether this handle acquired the lock and has
/// not yet released it: the session-local acquire/release protocol of the
/// writer and of a reader's reload is stated over that state.
pub struct Lock {
    location: String,
    parent: String,
    acquired: Ghost<bool>,
}

impl View for Lock {
    type V = Seq<char>;

    closed spec fn view(&self) -> Seq<char> {
        self.location@
    }
}

impl Lock {
    /// Whether this handle acquired the lock and has not released it.
    pub closed spec fn held(&self) -> bool {
        self.acquired@
    }

    /// Opens a handle on the lock at `location` without acquiring it; the
    /// parent directory must already exist.
    pub fn open(location: &String) -> (r: Result<Lock, LockError>)
        ensures
            r matches Ok(l) ==> l@ == location@ && !l.held(),
            r matches Err(e) ==> e == LockError::Io,
    {
        let parent = parent_of(location);
        if !marker::path_exists(parent.as_str()) {
            return Err(LockError::Io);
        }
        Ok(Lock { location: location.clone(), parent, acquired: Ghost(false) })
    }

    /// Tries to acquire: creates the lock file, failing with `AlreadyHeld`
    /// when it already exists and with `Io` when the file system refuses.
    pub fn try_lock(&mut self) -> (r: Result<(), LockError>)
        requires
            !old(self).held(),
        ensures
            final(self)@ == old(self)@,
            r matches Ok(_) ==> final(self).held(),
            r matches Err(e) ==> !final(self).held() && (e == LockError::AlreadyHeld || e
                == LockError::Io),
    {
        if self.is_locked() {
            return Err(LockError::AlreadyHeld);
        }
        match marker::create_marker(self.location.as_str(), self.parent.as_str()) {
            Ok(_) => {
                self.acquired = Ghost(true);
                Ok(())
            },
            Err(MarkerError::AlreadyThere) => Err(LockError::AlreadyHeld),
            Err(MarkerError::Io) => Err(LockError::Io),
        }
    }

    /// Acquires, retrying while another holder is in its critical section;
    /// gives up after `LOCK_RETRY_LIMIT` attempts, so a caller waiting on a
    /// long-held lock gets an error where unbounded blocking would hang on
    /// a stale lock file.
    pub fn lock(&mut self) -> (r: Result<(), LockError>)
        requires
            !old(self).held(),
        ensures
            final(self)@ == old(self)@,
            r matches Ok(_) ==> final(self).held(),
            r matches Err(e) ==> !final(self).held() && e == LockError::Io,
    {
        let mut attempts: u64 = 0;
        while attempts < LOCK_RETRY_LIMIT
            invariant
                !self.held(),
                self@ == old(self)@,
            decreases LOCK_RETRY_LIMIT - attempts,
        {
            match marker::create_marker(self.location.as_str(), self.parent.as_str()) {
                Ok(_) => {
                    self.acquired = Ghost(true);
                    return Ok(());
                },
                Err(_) => {
                },
            }
            attempts = attempts + 1;
        }
        Err(LockError::Io)
    }

    /// Whether the lock file exists right now, whoever created it.
    pub fn is_locked(&self) -> bool {
        marker::path_exists(self.location.as_str())
    }

    /// Best-effort release: removes the lock file; its absence is not an
    /// error.
    pub fn unlock(&mut self)
        ensures
            final(self)@ == old(self)@,
            !final(self).held(),
    {
        let _ = marker::remove_marker(self.location.as_str());
        self.acquired = Ghost(false);
    }
}

/// The parent directory of `p`: the text before its last separator.
pub fn parent_of(p: &String) -> (r: String)
    ensures
        parent_text(p@, r@),
{
    let s = p.as_str();
    let n = s.unicode_len();
    let mut i: usize = n;
    while i > 0
        invariant
            0 <= i <= n,
            n == s@.len(),
            s@ == p@,
            forall|j: int| i <= j < n ==> s@[j] != '/',
        decreases i,
    {
        i = i - 1;
        if s.get_char(i) == '/' {
            if i == 0 {
                let root = s.substring_char(0, 1);
                proof {
                    assert(root@ =~= seq![s@[0]]);
                    assert(root@ =~= seq!['/']);
                }
                return root.to_owned();
            }
            let dir = s.substring_char(0, i);
            proof {
                assert(dir@ =~= s@.subrange(0, i as int));
            }
            return dir.to_owned();
        }
    }
    proof {
        if exists|w: int| 0 <= w < p@.len() && p@[w] == '/' {
            let w = choose|w: int| 0 <= w < p@.len() && p@[w] == '/';
            assert(s@[w] != '/');
        }
    }
    String::new()
}

} // verus!
