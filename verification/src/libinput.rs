//! Opening of input devices on behalf of libinput.

use vstd::prelude::*;

verus! {

/// Opens and closes devices for libinput.
#[derive(Debug, Clone, Copy)]
pub struct FloraLibinputInterface;

/// The error number for an argument that makes no sense.
pub open spec fn einval() -> i32 {
    22
}

/// The error number for a failed transfer.
pub open spec fn eio() -> i32 {
    5
}

/// `libc::EINVAL`, which libc defines as 22 for Linux.
#[verifier::external_body]
fn libc_einval() -> (r: i32)
    ensures
        r == einval(),
{
    libc::EINVAL
}

/// `libc::EIO`, which libc defines as 5 for Linux.
#[verifier::external_body]
fn libc_eio() -> (r: i32)
    ensures
        r == eio(),
{
    libc::EIO
}

/// A path as the system call takes it: closed by a zero byte, which may not
/// occur inside.
pub open spec fn closed_path(path: Seq<u8>) -> Result<Seq<u8>, i32> {
    if path.contains(0) {
        Err(einval())
    } else {
        Ok(path.push(0))
    }
}

/// What opening a device came to.
pub open spec fn opening_outcome(descriptor: i32, error: Option<i32>) -> Result<i32, i32> {
    if descriptor >= 0 {
        Ok(descriptor)
    } else {
        match error {
            Some(number) => Err(number),
            None => Err(eio()),
        }
    }
}

impl FloraLibinputInterface {
    /// A path as the system call takes it: closed by a zero byte, which may not
    /// occur inside.
    pub fn system_path(&self, path: &Vec<u8>) -> (r: Result<Vec<u8>, i32>)
        ensures
            match r {
                Ok(closed) => closed_path(path@) == Ok::<Seq<u8>, i32>(closed@),
                Err(error) => closed_path(path@) == Err::<Seq<u8>, i32>(error),
            },
    {
        let mut closed: Vec<u8> = Vec::new();
        let mut i: usize = 0;
        while i < path.len()
            invariant
                i <= path@.len(),
                closed@ == path@.take(i as int),
                forall|j: int| 0 <= j < i ==> #[trigger] path@[j] != 0,
            decreases path@.len() - i,
        {
            if path[i] == 0 {
                assert(path@.contains(0));
                return Err(libc_einval());
            }
            closed.push(path[i]);
            i = i + 1;
            assert(closed@ =~= path@.take(i as int));
        }
        closed.push(0);
        assert(closed@ =~= path@.push(0));
        Ok(closed)
    }

    /// What opening a device came to, from what the system call returned and
    /// the error number it left, if any.
    pub fn opened(&self, descriptor: i32, error: Option<i32>) -> (r: Result<i32, i32>)
        ensures
            r == opening_outcome(descriptor, error),
    {
        if descriptor < 0 {
            match error {
                Some(number) => Err(number),
                None => Err(libc_eio()),
            }
        } else {
            Ok(descriptor)
        }
    }
}

} // verus!
