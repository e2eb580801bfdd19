//! Decoding of the import-dependency table embedded in a portable-executable
//! image.
//!
//! The whole decoding is specified by [`spec_parse`], a mathematical function
//! over the image's byte sequence, and [`parse`] is proved to return exactly
//! what [`spec_parse`] says, for every input buffer.

use vstd::prelude::*;

verus! {

/// Why decoding an image failed.
#[derive(Clone, Copy, Debug, PartialEq, Eq, Structural)]
pub enum ParseError {
    /// The legacy or the modern header marker is missing or wrong:
    /// not a recognized image.
    BadSignature,
    /// An offset or length computed during parsing exceeds the buffer:
    /// a corrupt or incomplete file.
    Truncated,
    /// A recognized but unhandled optional-header layout.
    UnsupportedFormat,
    /// A virtual address that no declared section contains: a corrupt image.
    BadRva,
}

/// One entry of the section table, reduced to the fields that translating
/// virtual addresses into file offsets needs.
#[derive(Clone, Copy, Debug, PartialEq, Eq, Structural)]
pub struct SectionDescriptor {
    /// Address of the section once the image is mapped.
    pub virtual_address: u32,
    /// Size of the mapped section.
    pub virtual_size: u32,
    /// Offset of the section's raw data in the file.
    pub raw_offset: u32,
    /// Size of the section's raw data in the file.
    pub raw_size: u32,
}

/// The little-endian 16-bit value stored at byte offset `i`.
pub open spec fn le16(b: Seq<u8>, i: int) -> int {
    b[i] + 0x100 * b[i + 1]
}

/// The little-endian 32-bit value stored at byte offset `i`.
pub open spec fn le32(b: Seq<u8>, i: int) -> int {
    b[i] + 0x100 * b[i + 1] + 0x10000 * b[i + 2] + 0x1000000 * b[i + 3]
}

/// The buffer holds a whole legacy header, opening with the legacy marker
/// bytes `MZ`.
pub open spec fn dos_ok(b: Seq<u8>) -> bool {
    b.len() >= 64 && b[0] == 0x4du8 && b[1] == 0x5au8
}

/// The modern header's offset, read from the fixed field of the legacy
/// header.
pub open spec fn pe_header_off(b: Seq<u8>) -> int {
    le32(b, 0x3c)
}

/// The four modern-header marker bytes `PE\0\0` stand at the declared offset.
pub open spec fn pe_sig_ok(b: Seq<u8>) -> bool {
    let p = pe_header_off(b);
    b[p] == 0x50u8 && b[p + 1] == 0x45u8 && b[p + 2] == 0u8 && b[p + 3] == 0u8
}

/// Number of entries of the section table, from the file header.
pub open spec fn num_sections(b: Seq<u8>) -> int {
    le16(b, pe_header_off(b) + 6)
}

/// Declared size of the optional header, from the file header.
pub open spec fn opt_header_size(b: Seq<u8>) -> int {
    le16(b, pe_header_off(b) + 20)
}

/// Offset of the optional header: it follows the 4 marker bytes and the
/// 20-byte file header.
pub open spec fn opt_header_off(b: Seq<u8>) -> int {
    pe_header_off(b) + 24
}

/// The optional header's magic value, selecting the 32-bit or the 64-bit
/// field layout.
pub open spec fn opt_magic(b: Seq<u8>) -> int {
    le16(b, opt_header_off(b))
}

/// Offset of the import-table entry of the data-directory array (its second
/// entry), for the layout the magic value selects.
pub open spec fn import_dir_entry_off(b: Seq<u8>) -> int {
    opt_header_off(b) + (if opt_magic(b) == 0x10b {
        96int
    } else {
        112int
    }) + 8
}

/// The import table's declared virtual address.
pub open spec fn import_table_va(b: Seq<u8>) -> int {
    le32(b, import_dir_entry_off(b))
}

/// The import table's declared size.
pub open spec fn import_table_size(b: Seq<u8>) -> int {
    le32(b, import_dir_entry_off(b) + 4)
}

/// Offset of the section table: the optional header's declared size past its
/// start.
pub open spec fn section_table_off(b: Seq<u8>) -> int {
    opt_header_off(b) + opt_header_size(b)
}

/// The section-table entry stored at byte offset `off`.
pub open spec fn spec_section(b: Seq<u8>, off: int) -> SectionDescriptor {
    SectionDescriptor {
        virtual_size: le32(b, off + 8) as u32,
        virtual_address: le32(b, off + 12) as u32,
        raw_size: le32(b, off + 16) as u32,
        raw_offset: le32(b, off + 20) as u32,
    }
}

/// The `n` section-table entries stored as 40-byte records from byte offset
/// `soff` on.
pub open spec fn spec_sections(b: Seq<u8>, soff: int, n: nat) -> Seq<SectionDescriptor> {
    Seq::new(n, |i: int| spec_section(b, soff + 40 * i))
}

/// The file offset that the virtual address `rva` translates to: the first
/// section whose mapped range contains `rva` places it at its raw data plus
/// the distance into the section. `None` when no section contains it.
pub open spec fn spec_rva_to_offset(secs: Seq<SectionDescriptor>, rva: int) -> Option<int>
    decreases secs.len(),
{
    if secs.len() == 0 {
        None
    } else {
        let s = secs[0];
        if s.virtual_address <= rva && rva < s.virtual_address + s.virtual_size {
            Some(s.raw_offset + (rva - s.virtual_address))
        } else {
            spec_rva_to_offset(secs.drop_first(), rva)
        }
    }
}

/// All 20 bytes of the import-descriptor record at `off` are zero: the
/// sentinel that ends the descriptor run.
pub open spec fn descriptor_is_zero(b: Seq<u8>, off: int) -> bool {
    forall|k: int| 0 <= k < 20 ==> #[trigger] b[off + k] == 0u8
}

/// The dependency name stored at byte offset `off`: the bytes up to, and not
/// including, the first zero byte. `None` when the buffer ends before a zero
/// byte is found.
pub open spec fn spec_name(b: Seq<u8>, off: int) -> Option<Seq<u8>>
    decreases b.len() - off,
{
    if off < 0 || off >= b.len() {
        None
    } else if b[off] == 0u8 {
        Some(Seq::empty())
    } else {
        match spec_name(b, off + 1) {
            None => None,
            Some(rest) => Some(seq![b[off]] + rest),
        }
    }
}

/// The run of import-descriptor records from byte offset `off` on, decoded to
/// the dependency names they declare, in record order. The run ends at the
/// first all-zero record; a run that leaves the buffer before that sentinel
/// is truncated, a name virtual address outside every section is a bad
/// virtual address, and an unterminated name is truncated.
pub open spec fn spec_imports(b: Seq<u8>, secs: Seq<SectionDescriptor>, off: int) -> Result<
    Seq<Seq<u8>>,
    ParseError,
>
    decreases b.len() - off,
{
    if off < 0 || off + 20 > b.len() {
        Err(ParseError::Truncated)
    } else if descriptor_is_zero(b, off) {
        Ok(Seq::empty())
    } else {
        match spec_rva_to_offset(secs, le32(b, off + 12)) {
            None => Err(ParseError::BadRva),
            Some(noff) => match spec_name(b, noff) {
                None => Err(ParseError::Truncated),
                Some(name) => match spec_imports(b, secs, off + 20) {
                    Ok(rest) => Ok(seq![name] + rest),
                    Err(e) => Err(e),
                },
            },
        }
    }
}

/// What decoding an image's bytes yields: the declared dependency names in
/// declaration order, an empty sequence for an image that declares no import
/// table, or the error at the first structural violation.
pub open spec fn spec_parse(b: Seq<u8>) -> Result<Seq<Seq<u8>>, ParseError> {
    if !dos_ok(b) {
        Err(ParseError::BadSignature)
    } else if pe_header_off(b) + 4 > b.len() {
        Err(ParseError::Truncated)
    } else if !pe_sig_ok(b) {
        Err(ParseError::BadSignature)
    } else if pe_header_off(b) + 24 > b.len() {
        Err(ParseError::Truncated)
    } else if opt_header_off(b) + 2 > b.len() {
        Err(ParseError::Truncated)
    } else if opt_magic(b) != 0x10b && opt_magic(b) != 0x20b {
        Err(ParseError::UnsupportedFormat)
    } else if import_dir_entry_off(b) + 8 > b.len() {
        Err(ParseError::Truncated)
    } else if import_table_va(b) == 0 || import_table_size(b) == 0 {
        Ok(Seq::empty())
    } else if section_table_off(b) + 40 * num_sections(b) > b.len() {
        Err(ParseError::Truncated)
    } else {
        let secs = spec_sections(b, section_table_off(b), num_sections(b) as nat);
        match spec_rva_to_offset(secs, import_table_va(b)) {
            None => Err(ParseError::BadRva),
            Some(ioff) => spec_imports(b, secs, ioff),
        }
    }
}

/// The byte sequences that a vector of byte vectors holds.
pub open spec fn views_of(s: Seq<Vec<u8>>) -> Seq<Seq<u8>> {
    s.map_values(|v: Vec<u8>| v@)
}

/// Reads the little-endian 16-bit value at `off`.
fn read_u16(b: &Vec<u8>, off: u64) -> (r: u16)
    requires
        off + 2 <= b.len(),
    ensures
        r == le16(b@, off as int),
{
    let i = off as usize;
    let lo = b[i] as u16;
    let hi = b[i + 1] as u16;
    lo + 0x100 * hi
}

/// Reads the little-endian 32-bit value at `off`.
fn read_u32(b: &Vec<u8>, off: u64) -> (r: u32)
    requires
        off + 4 <= b.len(),
    ensures
        r == le32(b@, off as int),
{
    let i = off as usize;
    let b0 = b[i] as u32;
    let b1 = b[i + 1] as u32;
    let b2 = b[i + 2] as u32;
    let b3 = b[i + 3] as u32;
    b0 + 0x100 * b1 + 0x10000 * b2 + 0x1000000 * b3
}

/// Decides whether the 20-byte record at `off` is the all-zero sentinel.
fn descriptor_is_zero_at(b: &Vec<u8>, off: u64) -> (r: bool)
    requires
        off + 20 <= b.len(),
    ensures
        r == descriptor_is_zero(b@, off as int),
{
    let mut j: u64 = 0;
    while j < 20
        invariant
            off + 20 <= b.len(),
            j <= 20,
            forall|k: int| 0 <= k < j ==> #[trigger] b@[off + k] == 0u8,
        decreases 20 - j,
    {
        if b[(off + j) as usize] != 0 {
            assert(b@[off + j as int] != 0u8);
            return false;
        }
        assert(b@[off + j as int] == 0u8);
        j = j + 1;
    }
    true
}

/// Reads the zero-terminated dependency name at `start`.
fn read_name(b: &Vec<u8>, start: u64) -> (r: Result<Vec<u8>, ParseError>)
    ensures
        match r {
            Ok(name) => spec_name(b@, start as int) == Some(name@),
            Err(e) => e == ParseError::Truncated && spec_name(b@, start as int) == None::<Seq<u8>>,
        },
{
    let n = b.len() as u64;
    let mut j: u64 = start;
    let mut name: Vec<u8> = Vec::new();
    proof {
        if spec_name(b@, start as int) is Some {
            assert(Seq::<u8>::empty() + spec_name(b@, start as int)->Some_0 =~= spec_name(
                b@,
                start as int,
            )->Some_0);
        }
    }
    while j < n
        invariant
            n == b.len(),
            start <= j,
            spec_name(b@, j as int) is Some ==> spec_name(b@, start as int) == Some(
                name@ + spec_name(b@, j as int)->Some_0,
            ),
            spec_name(b@, j as int) is None ==> spec_name(b@, start as int) is None,
        decreases n - j,
    {
        let c = b[j as usize];
        if c == 0 {
            proof {
                assert(spec_name(b@, j as int) == Some(Seq::<u8>::empty()));
                assert(name@ + Seq::<u8>::empty() =~= name@);
            }
            return Ok(name);
        }
        let ghost old_name = name@;
        name.push(c);
        j = j + 1;
        proof {
            assert(old_name.push(c) =~= old_name + seq![c]);
            if spec_name(b@, j as int) is Some {
                let rest = spec_name(b@, j as int)->Some_0;
                assert(spec_name(b@, j as int - 1) == Some(seq![c] + rest));
                assert(old_name + (seq![c] + rest) =~= (old_name + seq![c]) + rest);
            }
        }
    }
    Err(ParseError::Truncated)
}

/// Translates the virtual address `rva` to a file offset through the section
/// table, scanning the sections in order.
fn rva_to_offset(secs: &Vec<SectionDescriptor>, rva: u32) -> (r: Option<u64>)
    ensures
        match r {
            Some(o) => spec_rva_to_offset(secs@, rva as int) == Some(o as int),
            None => spec_rva_to_offset(secs@, rva as int) == None::<int>,
        },
{
    let mut i: usize = 0;
    proof {
        assert(secs@.skip(0) =~= secs@);
    }
    while i < secs.len()
        invariant
            i <= secs@.len(),
            spec_rva_to_offset(secs@, rva as int) == spec_rva_to_offset(
                secs@.skip(i as int),
                rva as int,
            ),
        decreases secs@.len() - i,
    {
        let s = secs[i];
        proof {
            assert(secs@.skip(i as int)[0] == secs@[i as int]);
            assert(secs@.skip(i as int).drop_first() =~= secs@.skip(i as int + 1));
        }
        if s.virtual_address <= rva && (rva as u64) < s.virtual_address as u64
            + s.virtual_size as u64 {
            let o = s.raw_offset as u64 + (rva - s.virtual_address) as u64;
            return Some(o);
        }
        i = i + 1;
    }
    None
}

/// Reads the section table: `nsec` 40-byte records from byte offset `soff`.
fn read_sections(b: &Vec<u8>, soff: u64, nsec: u16) -> (r: Vec<SectionDescriptor>)
    requires
        soff + 40 * (nsec as int) <= b.len(),
    ensures
        r@ == spec_sections(b@, soff as int, nsec as nat),
{
    let mut v: Vec<SectionDescriptor> = Vec::new();
    let mut i: u64 = 0;
    while i < nsec as u64
        invariant
            soff + 40 * (nsec as int) <= b.len(),
            i <= nsec as u64,
            v@ =~= spec_sections(b@, soff as int, nsec as nat).take(i as int),
        decreases nsec as u64 - i,
    {
        proof {
            assert(40 * (i as int) + 40 <= 40 * (nsec as int)) by (nonlinear_arith)
                requires
                    i < nsec as u64,
            ;
        }
        let off = soff + 40 * i;
        let vs = read_u32(b, off + 8);
        let va = read_u32(b, off + 12);
        let rs = read_u32(b, off + 16);
        let ro = read_u32(b, off + 20);
        let ghost old_v = v@;
        v.push(
            SectionDescriptor {
                virtual_address: va,
                virtual_size: vs,
                raw_offset: ro,
                raw_size: rs,
            },
        );
        i = i + 1;
        proof {
            assert(spec_sections(b@, soff as int, nsec as nat)[i as int - 1] == spec_section(
                b@,
                soff as int + 40 * (i as int - 1),
            ));
            assert(v@ =~= spec_sections(b@, soff as int, nsec as nat).take(i as int));
        }
    }
    proof {
        assert(spec_sections(b@, soff as int, nsec as nat).take(nsec as int) =~= spec_sections(
            b@,
            soff as int,
            nsec as nat,
        ));
    }
    v
}

/// Reads the sentinel-terminated run of import descriptors at `start` and
/// decodes the name each one declares.
fn read_imports(b: &Vec<u8>, secs: &Vec<SectionDescriptor>, start: u64) -> (r: Result<
    Vec<Vec<u8>>,
    ParseError,
>)
    ensures
        match r {
            Ok(deps) => spec_imports(b@, secs@, start as int) == Ok::<Seq<Seq<u8>>, ParseError>(
                views_of(deps@),
            ),
            Err(e) => spec_imports(b@, secs@, start as int) == Err::<Seq<Seq<u8>>, ParseError>(e),
        },
{
    let n = b.len() as u64;
    let mut off: u64 = start;
    let mut deps: Vec<Vec<u8>> = Vec::new();
    proof {
        assert(views_of(Seq::<Vec<u8>>::empty()) =~= Seq::<Seq<u8>>::empty());
    }
    loop
        invariant
            n == b.len(),
            (match spec_imports(b@, secs@, off as int) {
                Ok(rest) => spec_imports(b@, secs@, start as int) == Ok::<
                    Seq<Seq<u8>>,
                    ParseError,
                >(views_of(deps@) + rest),
                Err(e) => spec_imports(b@, secs@, start as int) == Err::<Seq<Seq<u8>>, ParseError>(
                    e,
                ),
            }),
        decreases n + 20 - off,
    {
        if n < 20 || off > n - 20 {
            return Err(ParseError::Truncated);
        }
        if descriptor_is_zero_at(b, off) {
            proof {
                assert(views_of(deps@) + Seq::<Seq<u8>>::empty() =~= views_of(deps@));
            }
            return Ok(deps);
        }
        let name_rva = read_u32(b, off + 12);
        let noff = match rva_to_offset(secs, name_rva) {
            None => {
                return Err(ParseError::BadRva);
            },
            Some(o) => o,
        };
        let name = match read_name(b, noff) {
            Err(e) => {
                return Err(e);
            },
            Ok(nm) => nm,
        };
        let ghost old_deps = deps@;
        let ghost name_view = name@;
        deps.push(name);
        off = off + 20;
        proof {
            assert(views_of(old_deps.push(deps@[old_deps.len() as int])) =~= views_of(old_deps)
                + seq![name_view]);
            match spec_imports(b@, secs@, off as int) {
                Ok(rest) => {
                    assert(spec_imports(b@, secs@, off as int - 20) == Ok::<
                        Seq<Seq<u8>>,
                        ParseError,
                    >(seq![name_view] + rest));
                    assert(views_of(old_deps) + (seq![name_view] + rest) =~= (views_of(old_deps)
                        + seq![name_view]) + rest);
                },
                Err(_) => {},
            }
        }
    }
}

/// Decodes the ordered dependency-name list out of the raw bytes of one
/// executable image.
///
/// Returns exactly what [`spec_parse`] says of the bytes: the declared names
/// in declaration order, duplicates preserved; `Ok` of an empty list for a
/// well-formed image whose import directory is absent or empty; and
/// otherwise the error of the first structural violation. No partial list is
/// returned on any error.
pub fn parse(bytes: &Vec<u8>) -> (r: Result<Vec<Vec<u8>>, ParseError>)
    ensures
        match r {
            Ok(deps) => spec_parse(bytes@) == Ok::<Seq<Seq<u8>>, ParseError>(views_of(deps@)),
            Err(e) => spec_parse(bytes@) == Err::<Seq<Seq<u8>>, ParseError>(e),
        },
{
    let n = bytes.len() as u64;
    if n < 64 || bytes[0] != 0x4d || bytes[1] != 0x5a {
        return Err(ParseError::BadSignature);
    }
    let p = read_u32(bytes, 0x3c) as u64;
    if p + 4 > n {
        return Err(ParseError::Truncated);
    }
    if bytes[p as usize] != 0x50 || bytes[(p + 1) as usize] != 0x45 || bytes[(p + 2) as usize] != 0
        || bytes[(p + 3) as usize] != 0 {
        return Err(ParseError::BadSignature);
    }
    if p + 24 > n {
        return Err(ParseError::Truncated);
    }
    let nsec = read_u16(bytes, p + 6);
    let optsize = read_u16(bytes, p + 20) as u64;
    let opt = p + 24;
    if opt + 2 > n {
        return Err(ParseError::Truncated);
    }
    let magic = read_u16(bytes, opt);
    if magic != 0x10b && magic != 0x20b {
        return Err(ParseError::UnsupportedFormat);
    }
    let ddoff = opt + (if magic == 0x10b {
        96
    } else {
        112
    }) + 8;
    if ddoff + 8 > n {
        return Err(ParseError::Truncated);
    }
    let iva = read_u32(bytes, ddoff);
    let isz = read_u32(bytes, ddoff + 4);
    if iva == 0 || isz == 0 {
        proof {
            assert(views_of(Seq::<Vec<u8>>::empty()) =~= Seq::<Seq<u8>>::empty());
        }
        return Ok(Vec::new());
    }
    let soff = opt + optsize;
    if soff + 40 * (nsec as u64) > n {
        return Err(ParseError::Truncated);
    }
    let sections = read_sections(bytes, soff, nsec);
    let ioff = match rva_to_offset(&sections, iva) {
        None => {
            return Err(ParseError::BadRva);
        },
        Some(o) => o,
    };
    read_imports(bytes, &sections, ioff)
}

/// All the header stages that precede the import directory hold of the
/// buffer: a whole legacy header with its marker, a reachable modern header
/// with its marker and file header, a reachable and supported optional
/// header, and a reachable import entry of the data directory.
pub open spec fn headers_ok(b: Seq<u8>) -> bool {
    &&& dos_ok(b)
    &&& pe_header_off(b) + 24 <= b.len()
    &&& pe_sig_ok(b)
    &&& (opt_magic(b) == 0x10b || opt_magic(b) == 0x20b)
    &&& import_dir_entry_off(b) + 8 <= b.len()
}

/// An image whose headers are well formed but whose import directory is
/// absent — virtual address zero — or empty declares no dynamic
/// dependencies: decoding yields the empty list, not an error.
pub proof fn lemma_no_import_directory(b: Seq<u8>)
    requires
        headers_ok(b),
        import_table_va(b) == 0 || import_table_size(b) == 0,
    ensures
        spec_parse(b) == Ok::<Seq<Seq<u8>>, ParseError>(Seq::<Seq<u8>>::empty()),
{
}

/// A corrupted legacy signature is reported as such before anything else is
/// read: whatever the rest of the buffer holds, decoding yields
/// `BadSignature`.
pub proof fn lemma_bad_signature_first(b: Seq<u8>)
    requires
        !dos_ok(b),
    ensures
        spec_parse(b) == Err::<Seq<Seq<u8>>, ParseError>(ParseError::BadSignature),
{
}

/// A buffer with a whole legacy header that ends before the modern header it
/// points at is reported as truncated, never read out of bounds.
pub proof fn lemma_truncated_pe_header(b: Seq<u8>)
    requires
        dos_ok(b),
        pe_header_off(b) + 4 > b.len(),
    ensures
        spec_parse(b) == Err::<Seq<Seq<u8>>, ParseError>(ParseError::Truncated),
{
}

} // verus!
