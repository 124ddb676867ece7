use vstd::prelude::*;
use vstd::utf8::{decode_utf8, valid_utf8};

use crate::kernel::error::OsError;
use crate::kernel::traps::frame::TrapFrame;

verus! {

/// What `String::from_utf8_lossy` makes of a byte string.
pub uninterp spec fn utf8_lossy(bytes: Seq<u8>) -> Seq<char>;

/// `String::from_utf8_lossy(bytes).to_string()` (std): the text that the
/// bytes encode, with each invalid sequence replaced by U+FFFD. Stated: the
/// result is a function of the bytes, and valid UTF-8 decodes to exactly
/// its characters; the replacement of invalid sequences is not stated.
#[verifier::external_body]
fn lossy_string(bytes: &[u8]) -> (r: String)
    ensures
        r@ == utf8_lossy(bytes@),
        valid_utf8(bytes@) ==> r@ == decode_utf8(bytes@),
{
    String::from_utf8_lossy(bytes).to_string()
}

/// The NUL-terminated fields of `data` scanned from `i`, the current field
/// starting at `start`; a trailing field without its NUL counts unless it
/// is empty.
pub open spec fn nul_fields_from(data: Seq<u8>, start: int, i: int) -> Seq<Seq<u8>>
    decreases data.len() - i,
{
    if i < 0 || i >= data.len() {
        if start != data.len() {
            seq![data.subrange(start, data.len() as int)]
        } else {
            seq![]
        }
    } else if data[i] == 0 {
        seq![data.subrange(start, i)] + nul_fields_from(data, i + 1, i + 1)
    } else {
        nul_fields_from(data, start, i + 1)
    }
}

/// The NUL-terminated fields of `data`.
pub open spec fn nul_fields(data: Seq<u8>) -> Seq<Seq<u8>> {
    nul_fields_from(data, 0, 0)
}

/// Splits program arguments (or environment entries) at NUL bytes into
/// strings; a final field without its NUL counts unless it is empty.
pub fn parse_execute(data: &[u8]) -> (r: Vec<String>)
    ensures
        r@.len() == nul_fields(data@).len(),
        forall|k: int| 0 <= k < r@.len() ==> #[trigger] r@[k]@ == utf8_lossy(nul_fields(data@)[k]),
        forall|k: int|
            0 <= k < r@.len() && valid_utf8(nul_fields(data@)[k]) ==> #[trigger] r@[k]@ == decode_utf8(
                nul_fields(data@)[k],
            ),
{
    let mut result: Vec<String> = Vec::new();
    let ghost mut fields: Seq<Seq<u8>> = seq![];
    let mut last_start: usize = 0;
    let len = data.len();
    let mut i: usize = 0;
    while i < len
        invariant
            len == data@.len(),
            last_start <= i <= len,
            fields + nul_fields_from(data@, last_start as int, i as int) == nul_fields(data@),
            result@.len() == fields.len(),
            forall|k: int| 0 <= k < result@.len() ==> #[trigger] result@[k]@ == utf8_lossy(fields[k]),
            forall|k: int|
                0 <= k < result@.len() && valid_utf8(fields[k]) ==> #[trigger] result@[k]@ == decode_utf8(
                    fields[k],
                ),
        decreases len - i,
    {
        if data[i] == 0 {
            let field = lossy_string(&data[last_start..i]);
            proof {
                let f = data@.subrange(last_start as int, i as int);
                assert(fields.push(f) + nul_fields_from(data@, i + 1, i + 1) =~= fields + nul_fields_from(
                    data@,
                    last_start as int,
                    i as int,
                ));
                fields = fields.push(f);
            }
            result.push(field);
            last_start = i + 1;
        }
        i += 1;
    }
    if last_start != len {
        let field = lossy_string(&data[last_start..len]);
        proof {
            let f = data@.subrange(last_start as int, len as int);
            assert(fields.push(f) =~= fields + nul_fields_from(data@, last_start as int, i as int));
            fields = fields.push(f);
        }
        result.push(field);
    } else {
        assert(fields =~= fields + nul_fields_from(data@, last_start as int, i as int));
    }
    assert(fields == nul_fields(data@));
    result
}

/// Each NUL-separated piece of `data` (scanned from `i`, the current piece
/// starting at `start`) reversed and followed by a NUL. Every NUL ends a
/// piece, and the bytes after the last NUL form one more piece (possibly
/// empty).
pub open spec fn reversed_pieces_from(data: Seq<u8>, start: int, i: int) -> Seq<u8>
    decreases data.len() - i,
{
    if i < 0 || i >= data.len() {
        data.subrange(start, data.len() as int).reverse().push(0)
    } else if data[i] == 0 {
        data.subrange(start, i).reverse().push(0) + reversed_pieces_from(data, i + 1, i + 1)
    } else {
        reversed_pieces_from(data, start, i + 1)
    }
}

/// Byte `k` (most significant first) of the big-endian encoding of `x`.
pub open spec fn be_byte(x: u64, k: u64) -> u8 {
    ((x >> (8 * (7 - k))) & 0xff) as u8
}

/// The big-endian encoding of `x`.
pub open spec fn be_bytes(x: u64) -> Seq<u8> {
    Seq::new(8, |k: int| be_byte(x, k as u64))
}

/// The bytes placed at the top of a new program's stack: the lengths of
/// the argument and environment blocks (big-endian), then each of their
/// NUL-separated pieces reversed and NUL-terminated, the whole reversed.
pub open spec fn execute_stack(arguments: Seq<u8>, environment: Seq<u8>) -> Seq<u8> {
    (be_bytes(arguments.len() as u64) + be_bytes(environment.len() as u64) + reversed_pieces_from(
        arguments,
        0,
        0,
    ) + reversed_pieces_from(environment, 0, 0)).reverse()
}

/// Appends the big-endian encoding of `x`.
fn push_be_bytes(out: &mut Vec<u8>, x: u64)
    ensures
        final(out)@ == old(out)@ + be_bytes(x),
{
    let mut k: u64 = 0;
    while k < 8
        invariant
            k <= 8,
            out@ == old(out)@ + be_bytes(x).take(k as int),
        decreases 8 - k,
    {
        let byte = ((x >> (8 * (7 - k))) & 0xff) as u8;
        out.push(byte);
        proof {
            assert(be_bytes(x).take(k as int + 1) =~= be_bytes(x).take(k as int).push(be_byte(x, k)));
        }
        k += 1;
    }
    assert(be_bytes(x).take(8) =~= be_bytes(x));
}

/// Appends `data[start..end]` in reverse order.
fn push_reversed(out: &mut Vec<u8>, data: &[u8], start: usize, end: usize)
    requires
        start <= end <= data@.len(),
    ensures
        final(out)@ == old(out)@ + data@.subrange(start as int, end as int).reverse(),
{
    let mut j = end;
    while j > start
        invariant
            start <= j <= end <= data@.len(),
            out@ == old(out)@ + data@.subrange(j as int, end as int).reverse(),
        decreases j - start,
    {
        j -= 1;
        out.push(data[j]);
        proof {
            assert(data@.subrange(j as int, end as int).reverse() =~= data@.subrange(
                j as int + 1,
                end as int,
            ).reverse().push(data@[j as int]));
        }
    }
}

/// Appends each NUL-separated piece of `data` reversed and NUL-terminated.
fn push_reversed_pieces(out: &mut Vec<u8>, data: &[u8])
    ensures
        final(out)@ == old(out)@ + reversed_pieces_from(data@, 0, 0),
{
    let len = data.len();
    let mut start: usize = 0;
    let mut i: usize = 0;
    let ghost mut emitted: Seq<u8> = seq![];
    while i < len
        invariant
            len == data@.len(),
            start <= i <= len,
            out@ == old(out)@ + emitted,
            emitted + reversed_pieces_from(data@, start as int, i as int) == reversed_pieces_from(
                data@,
                0,
                0,
            ),
        decreases len - i,
    {
        if data[i] == 0 {
            push_reversed(out, data, start, i);
            out.push(0);
            proof {
                let piece = data@.subrange(start as int, i as int).reverse().push(0);
                assert(emitted + piece + reversed_pieces_from(data@, i + 1, i + 1) =~= emitted
                    + reversed_pieces_from(data@, start as int, i as int));
                emitted = emitted + piece;
                assert(out@ =~= old(out)@ + emitted);
            }
            start = i + 1;
        }
        i += 1;
    }
    push_reversed(out, data, start, len);
    out.push(0);
    proof {
        assert(out@ =~= old(out)@ + (emitted + reversed_pieces_from(data@, start as int, i as int)));
    }
}

/// The bytes a new program finds at the top of its stack (see
/// `execute_stack`); the program's stack pointer is set that many bytes
/// below the top of the stack.
pub fn execute_stack_image(arguments: &[u8], environment: &[u8]) -> (r: Vec<u8>)
    ensures
        r@ == execute_stack(arguments@, environment@),
{
    let mut stack_data: Vec<u8> = Vec::new();
    push_be_bytes(&mut stack_data, arguments.len() as u64);
    push_be_bytes(&mut stack_data, environment.len() as u64);
    push_reversed_pieces(&mut stack_data, arguments);
    push_reversed_pieces(&mut stack_data, environment);
    let ghost forward = stack_data@;
    assert(forward =~= be_bytes(arguments@.len() as u64) + be_bytes(environment@.len() as u64)
        + reversed_pieces_from(arguments@, 0, 0) + reversed_pieces_from(environment@, 0, 0));
    let mut image: Vec<u8> = Vec::new();
    let mut j = stack_data.len();
    while j > 0
        invariant
            j <= forward.len(),
            stack_data@ == forward,
            image@ == forward.subrange(j as int, forward.len() as int).reverse(),
        decreases j,
    {
        j -= 1;
        image.push(stack_data[j]);
        proof {
            assert(forward.subrange(j as int, forward.len() as int).reverse() =~= forward.subrange(
                j as int + 1,
                forward.len() as int,
            ).reverse().push(forward[j as int]));
        }
    }
    assert(forward.subrange(0, forward.len() as int) =~= forward);
    image
}

/// The saved program status a new user program starts with: the FIQ,
/// SError and debug mask bits (F, A and D: bits 6, 8 and 9) set.
pub const USER_SPSR: u64 = 0x340;

/// `context` set up to start a program: stack pointer `sp`, return address
/// `elr`, the kernel's and the program's page tables, and `USER_SPSR`; the
/// other registers as they were.
pub open spec fn program_context(context: TrapFrame, sp: u64, elr: u64, ttbr0: u64, ttbr1: u64) -> TrapFrame {
    TrapFrame { sp, elr, ttbr0, ttbr1, spsr: USER_SPSR, ..context }
}

/// Data with at least one byte after `start` has a field there.
proof fn lemma_nul_fields_from_nonempty(data: Seq<u8>, start: int, i: int)
    requires
        0 <= start <= i <= data.len(),
        start < data.len(),
    ensures
        nul_fields_from(data, start, i).len() >= 1,
    decreases data.len() - i,
{
    if i < data.len() && data[i] != 0 {
        lemma_nul_fields_from_nonempty(data, start, i + 1);
    }
}

/// Data has no NUL-terminated fields exactly when it is empty.
pub proof fn lemma_no_fields_iff_empty(data: Seq<u8>)
    ensures
        nul_fields(data).len() == 0 <==> data.len() == 0,
{
    if data.len() > 0 {
        lemma_nul_fields_from_nonempty(data, 0, 0);
    }
}

/// The reversed pieces of `data` from `start` take one byte more than the
/// bytes from `start`: each NUL is kept and one more ends the last piece.
proof fn lemma_reversed_pieces_len(data: Seq<u8>, start: int, i: int)
    requires
        0 <= start <= i <= data.len(),
    ensures
        reversed_pieces_from(data, start, i).len() == data.len() - start + 1,
    decreases data.len() - i,
{
    if i < data.len() {
        if data[i] == 0 {
            lemma_reversed_pieces_len(data, i + 1, i + 1);
        } else {
            lemma_reversed_pieces_len(data, start, i + 1);
        }
    }
}

/// The stack image of a new program is 18 bytes longer than its argument
/// and environment blocks together: two 8-byte lengths and one NUL ending
/// the last piece of each block.
pub proof fn lemma_execute_stack_len(arguments: Seq<u8>, environment: Seq<u8>)
    ensures
        execute_stack(arguments, environment).len() == arguments.len() + environment.len() + 18,
{
    lemma_reversed_pieces_len(arguments, 0, 0);
    lemma_reversed_pieces_len(environment, 0, 0);
}

/// Sets up `context` to start the program named by the first of the
/// NUL-separated `arguments` (the caller opens that file and loads it at
/// `image_base` in a fresh address space whose page table is at
/// `user_table_base`; the kernel's is at `kernel_table_base`). Returns the
/// bytes to place at the top of the program's stack, just below
/// `stack_top`; the stack pointer is set below them, the return address to
/// the image base, the page tables to the two given, and the saved program
/// status to `USER_SPSR`. `InvalidFilename`, and no change, when there is no
/// argument naming a program.
pub fn execute_context(
    arguments: &[u8],
    environment: &[u8],
    stack_top: u64,
    image_base: u64,
    kernel_table_base: u64,
    user_table_base: u64,
    context: &mut TrapFrame,
) -> (r: Result<Vec<u8>, OsError>)
    requires
        arguments@.len() + environment@.len() + 18 <= stack_top,
    ensures
        arguments@.len() == 0 ==> r == Err::<Vec<u8>, OsError>(OsError::InvalidFilename) && *final(context)
            == *old(context),
        arguments@.len() > 0 ==> (r matches Ok(image) && image@ == execute_stack(arguments@, environment@)
            && *final(context) == program_context(
            *old(context),
            (stack_top - (arguments@.len() + environment@.len() + 18)) as u64,
            image_base,
            kernel_table_base,
            user_table_base,
        )),
{
    proof {
        lemma_no_fields_iff_empty(arguments@);
        lemma_execute_stack_len(arguments@, environment@);
    }
    let fields = parse_execute(arguments);
    if fields.len() == 0 {
        return Err(OsError::InvalidFilename);
    }
    let image = execute_stack_image(arguments, environment);
    let length = image.len() as u64;
    context.sp = stack_top - length;
    context.elr = image_base;
    context.ttbr0 = kernel_table_base;
    context.ttbr1 = user_table_base;
    context.spsr = USER_SPSR;
    Ok(image)
}

/// The fields joined, each followed by a NUL byte.
pub open spec fn nul_terminated(fields: Seq<Seq<u8>>) -> Seq<u8>
    decreases fields.len(),
{
    if fields.len() == 0 {
        seq![]
    } else {
        fields[0] + seq![0u8] + nul_terminated(fields.drop_first())
    }
}

/// Scanning a field that ends at the NUL at `j` yields that field and goes
/// on after the NUL.
proof fn lemma_scan_field(data: Seq<u8>, start: int, i: int, j: int)
    requires
        0 <= start <= i <= j < data.len(),
        data[j] == 0,
        forall|m: int| i <= m < j ==> data[m] != 0,
    ensures
        nul_fields_from(data, start, i) == seq![data.subrange(start, j)] + nul_fields_from(data, j + 1, j + 1),
    decreases j - i,
{
    if i < j {
        lemma_scan_field(data, start, i + 1, j);
    }
}

/// Whatever comes before, the fields of NUL-terminated fields read after it
/// are those fields.
proof fn lemma_fields_after(prefix: Seq<u8>, fields: Seq<Seq<u8>>)
    requires
        forall|k: int, m: int| 0 <= k < fields.len() && 0 <= m < fields[k].len() ==> fields[k][m] != 0,
    ensures
        nul_fields_from(prefix + nul_terminated(fields), prefix.len() as int, prefix.len() as int) == fields,
    decreases fields.len(),
{
    let data = prefix + nul_terminated(fields);
    if fields.len() == 0 {
        assert(data =~= prefix);
        assert(fields =~= Seq::<Seq<u8>>::empty());
    } else {
        let f = fields[0];
        let rest = fields.drop_first();
        let p2 = prefix + f + seq![0u8];
        assert(data =~= p2 + nul_terminated(rest));
        let j: int = (prefix.len() + f.len()) as int;
        assert forall|m: int| prefix.len() <= m < j implies data[m] != 0 by {
            assert(data[m] == f[m - prefix.len()]);
        }
        lemma_scan_field(data, prefix.len() as int, prefix.len() as int, j);
        assert(data.subrange(prefix.len() as int, j) =~= f);
        assert forall|k: int, m: int| 0 <= k < rest.len() && 0 <= m < rest[k].len() implies rest[k][m] != 0 by {
            assert(rest[k] == fields[k + 1]);
        }
        lemma_fields_after(p2, rest);
        assert(fields =~= seq![f] + rest);
    }
}

/// Joining fields without NUL bytes, each followed by a NUL, and splitting
/// the result at the NULs gives back the fields; so `parse_execute` gives
/// back each field that is valid UTF-8 as exactly its text.
pub proof fn lemma_nul_fields_round_trip(fields: Seq<Seq<u8>>)
    requires
        forall|k: int, m: int| 0 <= k < fields.len() && 0 <= m < fields[k].len() ==> fields[k][m] != 0,
    ensures
        nul_fields(nul_terminated(fields)) == fields,
{
    lemma_fields_after(seq![], fields);
    assert(Seq::<u8>::empty() + nul_terminated(fields) =~= nul_terminated(fields));
}

} // verus!
