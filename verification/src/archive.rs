//! Reading zip archives held in memory (`zip::ZipArchive`), modelled by the
//! entries they hold.
use vstd::prelude::*;

verus! {

#[verifier::external_type_specification]
#[verifier::external_body]
#[verifier::reject_recursive_types(R)]
pub struct ExZipArchive<R>(zip::ZipArchive<R>);

#[verifier::external_type_specification]
#[verifier::external_body]
pub struct ExZipError(zip::result::ZipError);

#[verifier::external_type_specification]
#[verifier::external_body]
#[verifier::reject_recursive_types(T)]
pub struct ExCursor<T>(std::io::Cursor<T>);

#[verifier::external_type_specification]
#[verifier::external_body]
pub struct ExIoError(std::io::Error);

/// An archive read from bytes in memory.
pub type Archive = zip::ZipArchive<std::io::Cursor<Vec<u8>>>;

/// One entry of an archive: `None` where the entry cannot be opened or its
/// name cannot be read; otherwise its name, its uncompressed size, and its
/// content as text (`None` where it cannot be read as UTF-8 text).
pub type ZipItem = Option<(Seq<char>, u64, Option<Seq<char>>)>;

/// The text of an entry, where it opens and reads as text.
pub open spec fn item_text(it: ZipItem) -> Option<Seq<char>> {
    match it {
        Some((_, _, t)) => t,
        None => None,
    }
}

/// The entries of an archive, by index.
pub uninterp spec fn zip_items(a: Archive) -> Seq<ZipItem>;

/// What `ZipArchive::new` makes of some bytes: `None` where it refuses them.
pub uninterp spec fn spec_zip_read(bytes: Seq<u8>) -> Option<Seq<ZipItem>>;

/// `ZipArchive::new` over a copy of the bytes.
#[verifier::external_body]
pub(crate) fn zip_open(bytes: &[u8]) -> (r: Result<Archive, zip::result::ZipError>)
    ensures
        r is Ok <==> spec_zip_read(bytes@) is Some,
        r matches Ok(a) ==> spec_zip_read(bytes@) == Some(zip_items(a)),
{
    zip::ZipArchive::new(std::io::Cursor::new(bytes.to_vec()))
}

/// `ZipArchive::len`.
#[verifier::external_body]
pub(crate) fn zip_len(a: &Archive) -> (r: usize)
    ensures
        r == zip_items(*a).len(),
{
    a.len()
}

/// `ZipArchive::by_index`, then the entry's `name` and `size`. Reading does
/// not change which entries the archive yields.
#[verifier::external_body]
pub(crate) fn zip_entry(a: &mut Archive, i: usize) -> (r: Result<(String, u64), zip::result::ZipError>)
    requires
        i < zip_items(*old(a)).len(),
    ensures
        zip_items(*final(a)) == zip_items(*old(a)),
        r is Ok <==> zip_items(*old(a))[i as int] is Some,
        r matches Ok((name, size)) ==> zip_items(*old(a))[i as int] matches Some((n, s, _)) && n == name@ && s == size,
{
    let file = a.by_index(i)?;
    let name = file.name()?.to_string();
    Ok((name, file.size()))
}

/// `ZipArchive::by_index` of an entry that opens, then `read_to_string` of it.
/// Reading does not change which entries the archive yields.
#[verifier::external_body]
pub(crate) fn zip_entry_text(a: &mut Archive, i: usize) -> (r: Result<String, std::io::Error>)
    requires
        i < zip_items(*old(a)).len(),
        zip_items(*old(a))[i as int] is Some,
    ensures
        zip_items(*final(a)) == zip_items(*old(a)),
        r is Ok <==> item_text(zip_items(*old(a))[i as int]) is Some,
        r matches Ok(t) ==> item_text(zip_items(*old(a))[i as int]) == Some(t@),
{
    let mut file = a.by_index(i)?;
    let mut text = String::new();
    std::io::Read::read_to_string(&mut file, &mut text)?;
    Ok(text)
}

} // verus!
