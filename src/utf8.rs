use vstd::prelude::*;

use crate::bom_type::BomType;
use crate::skip_encoding_bom::SkipEncodingBom;

verus! {

/// The BOM types of a [`SkipUtf8Bom`]: the UTF-8 one alone.
fn utf8_only() -> (r: &'static [BomType])
    ensures
        r@ == seq![BomType::UTF8],
{
    &[BomType::UTF8]
}

/// Skip initial UTF-8 BOM from an I/O reader.
#[derive(Clone)]
pub struct SkipUtf8Bom<T> {
    decorator: SkipEncodingBom<'static, T>,
}

impl<T> SkipUtf8Bom<T> {
    /// The decorator that looks for the UTF-8 BOM.
    pub closed spec fn decorator(&self) -> SkipEncodingBom<'static, T> {
        self.decorator
    }

    /// The decorator is well formed and looks for the UTF-8 BOM alone.
    pub open spec fn wf(&self) -> bool {
        &&& self.decorator().wf()
        &&& self.decorator().candidates() == seq![BomType::UTF8]
    }
}

impl<T: std::io::Read> SkipUtf8Bom<T> {
    /// Skips the UTF-8 BOM, `EF BB BF`, at the start of `reader`.
    pub fn new(reader: T) -> (r: Self)
        ensures
            r.wf(),
            r.decorator().inner() == reader,
            r.decorator().stream() == Seq::<u8>::empty(),
            r.decorator().output() == Seq::<u8>::empty(),
            r.decorator().verdict() is None,
    {
        SkipUtf8Bom { decorator: SkipEncodingBom::new(utf8_only(), reader) }
    }

    /// Returns `Some(true)` if the BOM was found, `Some(false)` if it was not, or `None` if the presence of a BOM could not be determined yet.
    pub fn found_bom(&self) -> (r: Option<bool>)
        ensures
            r == match self.decorator().verdict() {
                None => None,
                Some(found) => Some(found is Some),
            },
    {
        match self.decorator.bom_found() {
            None => None,
            Some(None) => Some(false),
            Some(Some(_)) => Some(true),
        }
    }

    /// Unwraps this `SkipUtf8Bom<T>`, returning the underlying reader.
    pub fn into_inner(self) -> (r: T)
        ensures
            r == self.decorator().inner(),
    {
        self.decorator.into_inner()
    }
}

impl<T: std::io::Read> std::io::Read for SkipUtf8Bom<T> {
    /// Reads the bytes that follow the BOM, as [`SkipEncodingBom::read_payload`] does.
    fn read(&mut self, buf: &mut [u8]) -> (r: std::io::Result<usize>)
        ensures
            old(self).wf() ==> final(self).wf(),
            final(self).decorator().wf(),
            final(self).decorator().candidates() == old(self).decorator().candidates(),
            old(self).decorator().verdict() is Some ==> final(self).decorator().settled_at() == old(
                self,
            ).decorator().settled_at(),
            final(buf)@.len() == old(buf)@.len(),
            old(self).decorator().stream().is_prefix_of(final(self).decorator().stream()),
            old(self).decorator().verdict() is Some ==> final(self).decorator().verdict() == old(self).decorator().verdict(),
            0 < old(buf)@.len() <= old(self).decorator().pending().len() ==> {
                &&& r == Ok::<usize, std::io::Error>(old(buf)@.len() as usize)
                &&& final(buf)@ == old(self).decorator().pending().subrange(0, old(buf)@.len() as int)
                &&& final(self).decorator().stream() == old(self).decorator().stream()
            },
            old(self).decorator().pending().len() < old(buf)@.len() ==> (r matches Ok(n) ==> {
                &&& old(self).decorator().pending().len() <= n
                &&& final(buf)@.subrange(0, old(self).decorator().pending().len() as int) == old(self).decorator().pending()
            }),
            old(self).decorator().verdict() is Some && old(self).decorator().pending().len() < old(buf)@.len() ==> (
            r matches Ok(n) ==> {
                &&& final(self).decorator().pending() == Seq::<u8>::empty()
                &&& final(self).decorator().stream() == old(self).decorator().stream() + final(buf)@.subrange(
                    old(self).decorator().pending().len() as int,
                    n as int,
                )
            }),
            match r {
                Ok(n) => {
                    &&& n <= old(buf)@.len()
                    &&& final(self).decorator().output() == old(self).decorator().output() + final(buf)@.subrange(0, n as int)
                    &&& (n == old(buf)@.len() || final(self).decorator().pending() == Seq::<u8>::empty())
                    &&& (n == 0 && old(buf)@.len() > 0 ==> {
                        &&& final(self).decorator().last_read_empty()
                        &&& final(self).decorator().verdict() is Some
                        &&& final(self).decorator().pending() == Seq::<u8>::empty()
                    })
                },
                Err(_) => {
                    &&& final(self).decorator().output() == old(self).decorator().output()
                    &&& old(self).decorator().verdict() is Some ==> {
                        &&& final(self).decorator().stream() == old(self).decorator().stream()
                        &&& final(self).decorator().bom_state() == old(self).decorator().bom_state()
                    }
                    &&& old(self).decorator().verdict() is None ==> (final(self).decorator().verdict() is None
                        || final(self).decorator().pending() == Seq::<u8>::empty())
                },
            },
    {
        self.decorator.read_payload(buf)
    }
}

} // verus!
