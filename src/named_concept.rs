//! Names of rendezvous artifacts and the configuration that places them in
//! the file system: a prefix, a suffix and a directory hint.
use vstd::prelude::*;

verus! {

/// Longest accepted file name, in bytes.
pub const FILE_NAME_LENGTH: usize = 255;

/// Longest accepted path, in bytes.
pub const PATH_LENGTH: usize = 255;

/// The byte `/`.
pub const SEPARATOR: u8 = 47;

/// The byte `.`.
pub const DOT: u8 = 46;

/// Why a byte string is not accepted as a name or a path.
#[derive(Debug, Clone, Copy, PartialEq, Eq, Structural)]
pub enum SemanticStringError {
    InvalidContent,
    ExceedsMaximumLength,
}

/// A byte that may stand in a file name: neither a separator nor a zero byte.
pub open spec fn is_file_name_byte(b: u8) -> bool {
    b != 0 && b != SEPARATOR
}

/// The content rule of file names: not empty, no separator or zero byte, and
/// neither `.` nor `..`.
pub open spec fn is_valid_file_name_content(s: Seq<u8>) -> bool {
    &&& s.len() > 0
    &&& forall|i: int| 0 <= i < s.len() ==> is_file_name_byte(#[trigger] s[i])
    &&& s != seq![DOT]
    &&& s != seq![DOT, DOT]
}

/// A well-formed file name.
pub open spec fn is_valid_file_name(s: Seq<u8>) -> bool {
    s.len() <= FILE_NAME_LENGTH && is_valid_file_name_content(s)
}

/// The content rule of paths: no zero byte.
pub open spec fn is_valid_path_content(s: Seq<u8>) -> bool {
    forall|i: int| 0 <= i < s.len() ==> #[trigger] s[i] != 0
}

/// A well-formed path.
pub open spec fn is_valid_path(s: Seq<u8>) -> bool {
    s.len() <= PATH_LENGTH && is_valid_path_content(s)
}

/// What building a name from `s` yields: the length is checked first, then
/// the content.
pub open spec fn file_name_outcome(s: Seq<u8>) -> Result<Seq<u8>, SemanticStringError> {
    if s.len() > FILE_NAME_LENGTH {
        Err(SemanticStringError::ExceedsMaximumLength)
    } else if !is_valid_file_name_content(s) {
        Err(SemanticStringError::InvalidContent)
    } else {
        Ok(s)
    }
}

/// What building a path from `s` yields.
pub open spec fn path_outcome(s: Seq<u8>) -> Result<Seq<u8>, SemanticStringError> {
    if s.len() > PATH_LENGTH {
        Err(SemanticStringError::ExceedsMaximumLength)
    } else if !is_valid_path_content(s) {
        Err(SemanticStringError::InvalidContent)
    } else {
        Ok(s)
    }
}

/// A file name without directory part.
#[derive(Debug)]
pub struct FileName {
    value: Vec<u8>,
}

/// A path in the file system.
#[derive(Debug)]
pub struct Path {
    value: Vec<u8>,
}

impl View for FileName {
    type V = Seq<u8>;

    closed spec fn view(&self) -> Seq<u8> {
        self.value@
    }
}

impl View for Path {
    type V = Seq<u8>;

    closed spec fn view(&self) -> Seq<u8> {
        self.value@
    }
}

fn copy_bytes(bytes: &[u8]) -> (r: Vec<u8>)
    ensures
        r@ == bytes@,
{
    let mut r: Vec<u8> = Vec::new();
    let mut i: usize = 0;
    while i < bytes.len()
        invariant
            i <= bytes@.len(),
            r@ == bytes@.subrange(0, i as int),
        decreases bytes@.len() - i,
    {
        r.push(bytes[i]);
        i = i + 1;
        assert(r@ =~= bytes@.subrange(0, i as int));
    }
    assert(r@ =~= bytes@);
    r
}

fn has_valid_file_name_content(bytes: &[u8]) -> (r: bool)
    ensures
        r == is_valid_file_name_content(bytes@),
{
    if bytes.len() == 0 {
        return false;
    }
    if bytes.len() == 1 && bytes[0] == DOT {
        assert(bytes@ =~= seq![DOT]);
        return false;
    }
    if bytes.len() == 2 && bytes[0] == DOT && bytes[1] == DOT {
        assert(bytes@ =~= seq![DOT, DOT]);
        return false;
    }
    assert(bytes@ != seq![DOT]) by {
        if bytes@ == seq![DOT] {
            assert(bytes@[0] == DOT);
        }
    }
    assert(bytes@ != seq![DOT, DOT]) by {
        if bytes@ == seq![DOT, DOT] {
            assert(bytes@[0] == DOT && bytes@[1] == DOT);
        }
    }
    let mut i: usize = 0;
    while i < bytes.len()
        invariant
            i <= bytes@.len(),
            forall|j: int| 0 <= j < i ==> is_file_name_byte(#[trigger] bytes@[j]),
        decreases bytes@.len() - i,
    {
        if bytes[i] == 0 || bytes[i] == SEPARATOR {
            assert(!is_file_name_byte(bytes@[i as int]));
            return false;
        }
        i = i + 1;
    }
    true
}

fn has_valid_path_content(bytes: &[u8]) -> (r: bool)
    ensures
        r == is_valid_path_content(bytes@),
{
    let mut i: usize = 0;
    while i < bytes.len()
        invariant
            i <= bytes@.len(),
            forall|j: int| 0 <= j < i ==> #[trigger] bytes@[j] != 0,
        decreases bytes@.len() - i,
    {
        if bytes[i] == 0 {
            assert(bytes@[i as int] == 0);
            return false;
        }
        i = i + 1;
    }
    true
}

impl FileName {
    #[verifier::type_invariant]
    spec fn well_formed(self) -> bool {
        is_valid_file_name(self.value@)
    }

    /// Builds a file name from `bytes`, or tells which rule they break.
    pub fn new(bytes: &[u8]) -> (r: Result<FileName, SemanticStringError>)
        ensures
            match r {
                Ok(n) => file_name_outcome(bytes@) == Ok::<Seq<u8>, SemanticStringError>(n@),
                Err(e) => file_name_outcome(bytes@) == Err::<Seq<u8>, SemanticStringError>(e),
            },
    {
        if bytes.len() > FILE_NAME_LENGTH {
            return Err(SemanticStringError::ExceedsMaximumLength);
        }
        if !has_valid_file_name_content(bytes) {
            return Err(SemanticStringError::InvalidContent);
        }
        Ok(FileName { value: copy_bytes(bytes) })
    }

    /// A name from bytes already known to obey the rules.
    pub(crate) fn from_valid(bytes: &[u8]) -> (r: FileName)
        requires
            is_valid_file_name(bytes@),
        ensures
            r@ == bytes@,
    {
        FileName { value: copy_bytes(bytes) }
    }

    /// The bytes of the name; they obey the length and content rules.
    pub fn as_bytes(&self) -> (r: &[u8])
        ensures
            r@ == self@,
            is_valid_file_name(r@),
    {
        proof {
            use_type_invariant(self);
        }
        self.value.as_slice()
    }

    /// Length of the name in bytes.
    pub fn len(&self) -> (r: usize)
        ensures
            r == self@.len(),
    {
        self.value.len()
    }
}

impl Clone for FileName {
    fn clone(&self) -> (r: Self)
        ensures
            r@ == self@,
    {
        proof {
            use_type_invariant(self);
        }
        FileName { value: copy_bytes(self.value.as_slice()) }
    }
}

impl Path {
    #[verifier::type_invariant]
    spec fn well_formed(self) -> bool {
        is_valid_path(self.value@)
    }

    /// Builds a path from `bytes`, or tells which rule they break.
    pub fn new(bytes: &[u8]) -> (r: Result<Path, SemanticStringError>)
        ensures
            match r {
                Ok(p) => path_outcome(bytes@) == Ok::<Seq<u8>, SemanticStringError>(p@),
                Err(e) => path_outcome(bytes@) == Err::<Seq<u8>, SemanticStringError>(e),
            },
    {
        if bytes.len() > PATH_LENGTH {
            return Err(SemanticStringError::ExceedsMaximumLength);
        }
        if !has_valid_path_content(bytes) {
            return Err(SemanticStringError::InvalidContent);
        }
        Ok(Path { value: copy_bytes(bytes) })
    }

    /// A path from bytes already known to obey the rules.
    pub(crate) fn from_valid(bytes: &[u8]) -> (r: Path)
        requires
            is_valid_path(bytes@),
        ensures
            r@ == bytes@,
    {
        Path { value: copy_bytes(bytes) }
    }

    /// The bytes of the path; they obey the length and content rules.
    pub fn as_bytes(&self) -> (r: &[u8])
        ensures
            r@ == self@,
            is_valid_path(r@),
    {
        proof {
            use_type_invariant(self);
        }
        self.value.as_slice()
    }
}

impl Clone for Path {
    fn clone(&self) -> (r: Self)
        ensures
            r@ == self@,
    {
        proof {
            use_type_invariant(self);
        }
        Path { value: copy_bytes(self.value.as_slice()) }
    }
}

} // verus!
