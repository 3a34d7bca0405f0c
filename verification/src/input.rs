use vstd::prelude::*;

use crate::bytes::bytes_equal;
use crate::error::CliError;

verus! {

/// The components of `base` begin the components of `path`, compared whole, as
/// `Path::starts_with` compares them.
pub open spec fn components_start_with(path: Seq<Seq<u8>>, base: Seq<Seq<u8>>) -> bool {
    base.len() <= path.len() && forall|i: int| 0 <= i < base.len() ==> path[i] == base[i]
}

/// The bounded path policy: every input must canonicalize to a regular file beneath the
/// canonical trust root, and hold at most `maximum_bytes` bytes.
pub struct InputPolicy {
    root: Vec<Vec<u8>>,
    maximum_bytes: u64,
}

impl InputPolicy {
    /// The components of the canonical trust root.
    pub closed spec fn root_components(&self) -> Seq<Seq<u8>> {
        self.root.deep_view()
    }

    pub closed spec fn spec_maximum_bytes(&self) -> u64 {
        self.maximum_bytes
    }

    /// A policy rooted at the canonical directory whose components are `root`; a root
    /// that is not a directory is refused.
    pub fn new(root: Vec<Vec<u8>>, root_is_dir: bool, maximum_bytes: u64) -> (r: Result<
        Self,
        CliError,
    >)
        ensures
            match r {
                Ok(policy) => root_is_dir && policy.root_components() == root.deep_view()
                    && policy.spec_maximum_bytes() == maximum_bytes,
                Err(e) => !root_is_dir && e == CliError::Input,
            },
    {
        if !root_is_dir {
            return Err(CliError::Input);
        }
        Ok(InputPolicy { root, maximum_bytes })
    }

    /// The most bytes read from one input.
    pub fn maximum_bytes(&self) -> (r: u64)
        ensures
            r == self.spec_maximum_bytes(),
    {
        self.maximum_bytes
    }

    /// Whether the canonical components of a candidate input lie beneath the root.
    pub fn encloses(&self, candidate: &Vec<Vec<u8>>) -> (r: bool)
        ensures
            r == components_start_with(candidate.deep_view(), self.root_components()),
    {
        let n = self.root.len();
        if n > candidate.len() {
            return false;
        }
        let mut i: usize = 0;
        while i < n
            invariant
                n == self.root@.len(),
                n <= candidate@.len(),
                i <= n,
                forall|k: int| 0 <= k < i ==> candidate.deep_view()[k] == self.root.deep_view()[k],
            decreases n - i,
        {
            proof {
                assert(candidate.deep_view()[i as int] =~= candidate@[i as int]@);
                assert(self.root.deep_view()[i as int] =~= self.root@[i as int]@);
            }
            if !bytes_equal(candidate[i].as_slice(), self.root[i].as_slice()) {
                return false;
            }
            i = i + 1;
        }
        true
    }

    /// Checks a candidate input by its canonical components and its metadata: it must lie
    /// beneath the root, be a regular file, and be no longer than the bound.
    pub fn check_candidate(&self, candidate: &Vec<Vec<u8>>, is_file: bool, length: u64) -> (r: Result<
        (),
        CliError,
    >)
        ensures
            r is Ok <==> (components_start_with(candidate.deep_view(), self.root_components())
                && is_file && length <= self.spec_maximum_bytes()),
            r matches Err(e) ==> e == CliError::Input,
    {
        if !self.encloses(candidate) || !is_file || length > self.maximum_bytes {
            return Err(CliError::Input);
        }
        Ok(())
    }

    /// Accepts the bytes read from a checked input unless they exceed the bound, which
    /// the file may have grown past since its metadata was read.
    pub fn accept(&self, bytes: Vec<u8>) -> (r: Result<Vec<u8>, CliError>)
        ensures
            match r {
                Ok(b) => b@ == bytes@ && bytes@.len() <= self.spec_maximum_bytes(),
                Err(e) => bytes@.len() > self.spec_maximum_bytes() && e == CliError::Input,
            },
    {
        if bytes.len() as u64 > self.maximum_bytes {
            return Err(CliError::Input);
        }
        Ok(bytes)
    }
}

} // verus!
