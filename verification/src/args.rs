//! The arguments of a guest program, as the runtime hands them out one at a
//! time into a small buffer.

use crate::wire::text_from_utf8;
use vstd::prelude::*;
use vstd::slice::*;
use vstd::string::*;
use vstd::utf8::{decode_utf8, valid_utf8};

verus! {

/// The size of the buffer that the runtime fills with one argument.
pub const ARG_BUFFER_LEN: usize = 32;

/// The arguments of the program: how many there are, and the runtime's
/// handle for them.
pub struct WasmArgs {
    count: usize,
    addr: u32,
    buff: [u8; 32],
}

impl WasmArgs {
    /// The arguments behind the runtime's handle `addr`, `count` in number.
    /// The buffer holds zeros.
    pub fn new(count: usize, addr: u32) -> (args: WasmArgs)
        ensures
            args.spec_count() == count,
            args.spec_addr() == addr,
            args.held() == Seq::new(ARG_BUFFER_LEN as nat, |i: int| 0u8),
    {
        let args = WasmArgs { count, addr, buff: [0u8; 32] };
        assert(args.buff@ =~= Seq::new(ARG_BUFFER_LEN as nat, |i: int| 0u8));
        args
    }

    /// How many arguments there are.
    pub closed spec fn spec_count(&self) -> usize {
        self.count
    }

    /// The runtime's handle for the arguments.
    pub closed spec fn spec_addr(&self) -> u32 {
        self.addr
    }

    /// The buffer: at its front the bytes of the argument that was returned
    /// last.
    pub closed spec fn held(&self) -> Seq<u8> {
        self.buff@
    }

    /// How many arguments there are.
    #[verifier::when_used_as_spec(spec_count)]
    pub fn count(&self) -> (n: usize)
        ensures
            n == self.spec_count(),
    {
        self.count
    }

    /// The runtime's handle for the arguments.
    #[verifier::when_used_as_spec(spec_addr)]
    pub fn addr(&self) -> (a: u32)
        ensures
            a == self.spec_addr(),
    {
        self.addr
    }

    /// Whether the runtime is to be asked for argument `index`.
    pub fn has(&self, index: usize) -> (b: bool)
        ensures
            b == (index < self.spec_count()),
    {
        index < self.count
    }

    /// The text of argument `index`, given the bytes that the runtime wrote
    /// for it. There is none where the index is out of range, where the
    /// runtime wrote nothing or more than the buffer holds, and where the
    /// bytes are not UTF-8. The bytes of an argument that is returned are
    /// kept at the front of the buffer; the rest of the buffer stays.
    pub fn get(&mut self, index: usize, written: &[u8]) -> (r: Option<String>)
        ensures
            final(self).spec_count() == old(self).spec_count(),
            final(self).spec_addr() == old(self).spec_addr(),
            r is Some <==> index < old(self).spec_count() && 0 < written@.len() <= ARG_BUFFER_LEN
                && valid_utf8(written@),
            r is Some ==> r->0@ == decode_utf8(written@) && final(self).held() == written@ + old(
                self,
            ).held().skip(written@.len() as int),
            r is None ==> final(self).held() == old(self).held(),
    {
        if index >= self.count || written.len() == 0 || written.len() > ARG_BUFFER_LEN {
            return None;
        }
        let text = text_from_utf8(slice_to_vec(written))?;
        proof {
            vstd::utf8::encode_utf8_decode_utf8(text@);
        }
        let mut i: usize = 0;
        while i < written.len()
            invariant
                i <= written.len() <= ARG_BUFFER_LEN,
                self.count == old(self).count,
                self.addr == old(self).addr,
                self.buff@.len() == ARG_BUFFER_LEN,
                forall|j: int| 0 <= j < i ==> self.buff@[j] == written@[j],
                forall|j: int| i <= j < ARG_BUFFER_LEN ==> self.buff@[j] == old(self).buff@[j],
            decreases written.len() - i,
        {
            self.buff[i] = written[i];
            i += 1;
        }
        assert(self.buff@ =~= written@ + old(self).buff@.skip(written@.len() as int));
        Some(text)
    }
}

} // verus!
