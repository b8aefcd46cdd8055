//! Descriptions a network is built from: the declaration of one input or
//! output tensor.

use vstd::prelude::*;

use crate::tensor::Layout;
use crate::types::DataType;
use crate::types::IOType;
use crate::types::LiteIOType;

verus! {

/// A type to describe network's input and output
pub struct IO<'a> {
    pub name: &'a str,
    pub is_host: bool,
    pub io_type: LiteIOType,
    pub layout: Layout<'a>,
}

impl<'a> Default for IO<'a> {
    /// An unnamed value input on the host, with an empty layout.
    fn default() -> (r: Self)
        ensures
            r.name@ == ""@,
            r.is_host == true,
            r.io_type == IOType::VALUE,
            r.layout.shapes@ == Seq::<usize>::empty(),
            r.layout.data_type == DataType::F32,
    {
        IO { name: "", is_host: true, io_type: IOType::VALUE, layout: Layout::default() }
    }
}

} // verus!
