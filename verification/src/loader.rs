//! The set of named weight tensors a model is loaded from.
//!
//! In the browser each tensor's bytes sit in a `Blob`; a [`TensorReader`]
//! lists the tensors by name and finds the one the model builder asks for.
//! Reading the blob's bytes is asynchronous I/O and is left to the caller.
use vstd::prelude::*;
use web_sys::Blob;

verus! {

/// `web_sys::Blob`, a handle on browser-side binary data; the library only
/// carries it.
#[verifier::external_type_specification]
#[verifier::external_body]
pub struct ExBlob(Blob);

/// `Blob::clone` (from `JsValue`'s `Clone`) makes a second handle on the same
/// browser-side object; nothing is stated of the returned handle.
pub assume_specification[ <Blob as Clone>::clone ](blob: &Blob) -> Blob;

/// One named tensor: its shape and the blob that holds its bytes.
#[derive(Debug, Clone)]
pub struct JsTensor {
    name: String,
    shape: Vec<usize>,
    blob: Blob,
}

impl JsTensor {
    /// The tensor's name.
    pub closed spec fn name_view(&self) -> Seq<char> {
        self.name@
    }

    /// The tensor's shape.
    pub closed spec fn shape_view(&self) -> Seq<usize> {
        self.shape@
    }

    /// The blob holding the tensor's bytes.
    pub closed spec fn blob_view(&self) -> Blob {
        self.blob
    }

    /// A tensor called `name`, of the given shape, whose bytes are in `blob`.
    pub fn new(name: String, shape: &[usize], blob: Blob) -> (r: Self)
        ensures
            r.name_view() == name@,
            r.shape_view() == shape@,
            r.blob_view() == blob,
    {
        JsTensor { name, shape: vstd::slice::slice_to_vec(shape), blob }
    }

    /// The tensor's name.
    pub fn name(&self) -> (r: &str)
        ensures
            r@ == self.name_view(),
    {
        self.name.as_str()
    }

    /// The tensor's shape.
    pub fn shape(&self) -> (r: &[usize])
        ensures
            r@ == self.shape_view(),
    {
        self.shape.as_slice()
    }

    /// The blob holding the tensor's bytes.
    pub fn blob(&self) -> (r: &Blob)
        ensures
            *r == self.blob_view(),
    {
        &self.blob
    }
}

/// Why a tensor could not be read.
#[derive(Debug, Clone, PartialEq, Eq)]
pub enum ReaderError {
    /// No tensor of this name is present.
    TensorNotFound(String),
}

/// The position of the last tensor called `name`, if any.
pub open spec fn last_named(tensors: Seq<JsTensor>, name: Seq<char>) -> Option<int>
    decreases tensors.len(),
{
    if tensors.len() == 0 {
        None
    } else if tensors.last().name_view() == name {
        Some(tensors.len() - 1)
    } else {
        last_named(tensors.drop_last(), name)
    }
}

proof fn lemma_last_named(tensors: Seq<JsTensor>, name: Seq<char>)
    ensures
        match last_named(tensors, name) {
            Some(i) => 0 <= i < tensors.len() && tensors[i].name_view() == name && forall|j: int|
                i < j < tensors.len() ==> #[trigger] tensors[j].name_view() != name,
            None => forall|j: int|
                0 <= j < tensors.len() ==> #[trigger] tensors[j].name_view() != name,
        },
    decreases tensors.len(),
{
    if tensors.len() > 0 {
        let init = tensors.drop_last();
        lemma_last_named(init, name);
        if tensors.last().name_view() != name {
            assert forall|j: int| 0 <= j < tensors.len() - 1 implies tensors[j] == init[j] by {}
        }
    }
}

/// Tensors looked up by name. When several tensors share a name, the last
/// of them is the one found.
#[derive(Debug)]
pub struct TensorReader {
    tensors: Vec<JsTensor>,
}

impl TensorReader {
    /// The tensors, in the order given.
    pub closed spec fn tensors_view(&self) -> Seq<JsTensor> {
        self.tensors@
    }

    /// A reader over `tensors`.
    pub fn new(tensors: Vec<JsTensor>) -> (r: Self)
        ensures
            r.tensors_view() == tensors@,
    {
        TensorReader { tensors }
    }

    /// The names of all tensors, in the order given, repeats included.
    pub fn names(&self) -> (r: Vec<&str>)
        ensures
            r.len() == self.tensors_view().len(),
            forall|i: int|
                0 <= i < r.len() ==> (#[trigger] r[i])@ == self.tensors_view()[i].name_view(),
    {
        let mut r: Vec<&str> = Vec::new();
        let mut i: usize = 0;
        while i < self.tensors.len()
            invariant
                i <= self.tensors.len(),
                r.len() == i,
                forall|j: int| 0 <= j < i ==> (#[trigger] r[j])@ == self.tensors@[j].name_view(),
            decreases self.tensors.len() - i,
        {
            r.push(self.tensors[i].name.as_str());
            i = i + 1;
        }
        r
    }

    /// Whether some tensor is called `name`.
    pub fn contains(&self, name: &str) -> (r: bool)
        ensures
            r == exists|i: int|
                0 <= i < self.tensors_view().len() && #[trigger] self.tensors_view()[i].name_view()
                    == name@,
    {
        let wanted = name.to_owned();
        let mut i: usize = 0;
        while i < self.tensors.len()
            invariant
                i <= self.tensors.len(),
                wanted@ == name@,
                forall|j: int| 0 <= j < i ==> #[trigger] self.tensors@[j].name_view() != name@,
            decreases self.tensors.len() - i,
        {
            if self.tensors[i].name == wanted {
                assert(self.tensors_view()[i as int].name_view() == name@);
                return true;
            }
            i = i + 1;
        }
        false
    }

    /// The tensor called `name`, the last one if several are; the error
    /// names the tensor when none is.
    pub fn tensor(&self, name: &str) -> (r: Result<&JsTensor, ReaderError>)
        ensures
            match r {
                Ok(t) => last_named(self.tensors_view(), name@) matches Some(i) && *t
                    == self.tensors_view()[i],
                Err(ReaderError::TensorNotFound(missing)) => missing@ == name@ && last_named(
                    self.tensors_view(),
                    name@,
                ) is None,
            },
    {
        let wanted = name.to_owned();
        let mut i: usize = self.tensors.len();
        assert(self.tensors@.take(i as int) =~= self.tensors@);
        while i > 0
            invariant
                i <= self.tensors.len(),
                wanted@ == name@,
                last_named(self.tensors@, name@) == last_named(self.tensors@.take(i as int), name@),
            decreases i,
        {
            let ghost prefix = self.tensors@.take(i as int);
            if self.tensors[i - 1].name == wanted {
                assert(prefix.last() == self.tensors@[i - 1]);
                proof {
                    lemma_last_named(prefix, name@);
                }
                return Ok(&self.tensors[i - 1]);
            }
            assert(prefix.drop_last() =~= self.tensors@.take(i - 1));
            i = i - 1;
        }
        assert(self.tensors@.take(0) =~= Seq::<JsTensor>::empty());
        Err(ReaderError::TensorNotFound(wanted))
    }
}

} // verus!
