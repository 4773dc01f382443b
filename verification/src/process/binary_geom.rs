//! Geometries in WKB, written into PostgreSQL's binary COPY buffers.

use vstd::prelude::*;
use bytes::BytesMut;

verus! {

/// `bytes::BytesMut`, the growable buffer that postgres writes values into.
#[verifier::external_type_specification]
#[verifier::external_body]
pub struct ExBytesMut(bytes::BytesMut);

/// The bytes a `BytesMut` holds.
pub uninterp spec fn bytes_mut_contents(b: BytesMut) -> Seq<u8>;

/// `BytesMut::len`: the number of bytes the buffer holds.
#[verifier::external_body]
fn bytes_mut_len(b: &BytesMut) -> (r: usize)
    ensures
        r == bytes_mut_contents(*b).len(),
{
    b.len()
}

/// `BytesMut::extend_from_slice`: appends `data` to the bytes held. It
/// reserves room first and panics where the new length would pass what can
/// be allocated, so the length stays within `isize::MAX`. Left unsaid: the
/// allocation can still fail, and bytes the buffer has already split off at
/// its front count toward that limit too.
#[verifier::external_body]
fn bytes_mut_extend_from_slice(out: &mut BytesMut, data: &[u8])
    requires
        bytes_mut_contents(*old(out)).len() + data@.len() <= isize::MAX,
    ensures
        bytes_mut_contents(*final(out)) == bytes_mut_contents(*old(out)) + data@,
{
    out.extend_from_slice(data)
}

/// A geometry encoded as WKB.
#[derive(Debug, Clone, PartialEq)]
pub struct Wkb {
    pub geometry: Vec<u8>,
}

/// The PostgreSQL type name `geometry`.
pub open spec fn geometry_column_type() -> Seq<char> {
    seq!['g', 'e', 'o', 'm', 'e', 't', 'r', 'y']
}

/// Why a WKB value was not written.
#[derive(Debug, Clone, Copy, PartialEq, Eq)]
pub enum WkbWriteError {
    /// The column's type is not `geometry`.
    WrongType,
    /// The buffer would grow past `isize::MAX` bytes.
    TooLong,
}

impl Wkb {
    /// Writes the WKB bytes, unchanged, after what the buffer holds.
    pub fn to_sql(&self, out: &mut BytesMut)
        requires
            bytes_mut_contents(*old(out)).len() + self.geometry@.len() <= isize::MAX,
        ensures
            bytes_mut_contents(*final(out)) == bytes_mut_contents(*old(out)) + self.geometry@,
    {
        bytes_mut_extend_from_slice(out, self.geometry.as_slice());
    }

    /// Whether a column of the named type takes the value: only `geometry`
    /// does.
    pub fn accepts(column_type: &str) -> (r: bool)
        ensures
            r == (column_type@ == geometry_column_type()),
    {
        let wanted = String::from_str("geometry");
        proof {
            reveal_strlit("geometry");
            assert("geometry"@ =~= geometry_column_type());
        }
        column_type.to_owned() == wanted
    }

    /// Writes the WKB bytes where the column's type accepts them and the
    /// buffer has room; otherwise leaves the buffer as it was and says why.
    pub fn to_sql_checked(&self, column_type: &str, out: &mut BytesMut) -> (r: Result<
        (),
        WkbWriteError,
    >)
        ensures
            column_type@ != geometry_column_type() ==> r == Err::<(), WkbWriteError>(
                WkbWriteError::WrongType,
            ),
            column_type@ == geometry_column_type() && bytes_mut_contents(*old(out)).len()
                + self.geometry@.len() > isize::MAX ==> r == Err::<(), WkbWriteError>(
                WkbWriteError::TooLong,
            ),
            r is Ok <==> column_type@ == geometry_column_type() && bytes_mut_contents(*old(out)).len()
                + self.geometry@.len() <= isize::MAX,
            r is Ok ==> bytes_mut_contents(*final(out)) == bytes_mut_contents(*old(out))
                + self.geometry@,
            r is Err ==> bytes_mut_contents(*final(out)) == bytes_mut_contents(*old(out)),
    {
        if !Wkb::accepts(column_type) {
            return Err(WkbWriteError::WrongType);
        }
        let len = bytes_mut_len(out);
        if len > isize::MAX as usize || self.geometry.len() > isize::MAX as usize - len {
            return Err(WkbWriteError::TooLong);
        }
        self.to_sql(out);
        Ok(())
    }
}

} // verus!
