use vstd::prelude::*;

verus! {

/// One executable section of a binary, as the patcher sees it.
pub struct CodeSection {
    file_offset: u64,
    vaddr: u64,
    base: u64,
    data: Vec<u8>,
    name: String,
}

/// The mathematical value of a [`CodeSection`].
pub struct CodeSectionView {
    /// Where the section's bytes start in the file.
    pub file_offset: u64,
    /// The address at which the section's first byte is loaded.
    pub vaddr: u64,
    /// The preferred image base that trap keys are relative to.
    pub base: u64,
    /// The section's bytes.
    pub data: Seq<u8>,
    /// The section's name.
    pub name: Seq<char>,
}

impl View for CodeSection {
    type V = CodeSectionView;

    closed spec fn view(&self) -> CodeSectionView {
        CodeSectionView {
            file_offset: self.file_offset,
            vaddr: self.vaddr,
            base: self.base,
            data: self.data@,
            name: self.name@,
        }
    }
}

impl CodeSection {
    pub fn new(file_offset: u64, vaddr: u64, base: u64, data: Vec<u8>, name: String) -> (r: Self)
        ensures
            r@ == (CodeSectionView { file_offset, vaddr, base, data: data@, name: name@ }),
    {
        CodeSection { file_offset, vaddr, base, data, name }
    }

    pub fn file_offset(&self) -> (r: u64)
        ensures
            r == self@.file_offset,
    {
        self.file_offset
    }

    pub fn vaddr(&self) -> (r: u64)
        ensures
            r == self@.vaddr,
    {
        self.vaddr
    }

    pub fn base(&self) -> (r: u64)
        ensures
            r == self@.base,
    {
        self.base
    }

    pub fn data_ref(&self) -> (r: &[u8])
        ensures
            r@ == self@.data,
    {
        self.data.as_slice()
    }

    pub fn name(&self) -> (r: &str)
        ensures
            r@ == self@.name,
    {
        self.name.as_str()
    }

    /// Overwrites the front of the section's bytes with `data`.
    pub fn write_data(&mut self, data: &[u8])
        requires
            data@.len() <= old(self)@.data.len(),
        ensures
            final(self)@.data == data@ + old(self)@.data.subrange(
                data@.len() as int,
                old(self)@.data.len() as int,
            ),
            final(self)@.file_offset == old(self)@.file_offset,
            final(self)@.vaddr == old(self)@.vaddr,
            final(self)@.base == old(self)@.base,
            final(self)@.name == old(self)@.name,
    {
        let n = data.len();
        for i in 0..n
            invariant
                n == data@.len(),
                n <= old(self)@.data.len(),
                self.data@.len() == old(self)@.data.len(),
                forall|j: int| 0 <= j < i ==> self.data@[j] == data@[j],
                forall|j: int| i <= j < self.data@.len() ==> self.data@[j] == old(self)@.data[j],
                self.file_offset == old(self)@.file_offset,
                self.vaddr == old(self)@.vaddr,
                self.base == old(self)@.base,
                self.name@ == old(self)@.name,
        {
            self.data.set(i, data[i]);
        }
        assert(self.data@ =~= data@ + old(self)@.data.subrange(n as int, old(self)@.data.len() as int));
    }

    /// Gives up the section, handing back its bytes.
    pub fn into_data(self) -> (r: Vec<u8>)
        ensures
            r@ == self@.data,
    {
        self.data
    }
}

} // verus!
