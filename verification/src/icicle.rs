//! Encoding with a device transform of whole column batches that works on plain integers.
use vstd::arithmetic::div_mod::*;
use vstd::arithmetic::mul::*;
use vstd::prelude::*;

use crate::error::Error;
use crate::field;
use crate::field::{fr_from_le_bytes_mod_order, fr_to_bytes_le, Fr};
use crate::layout;
use crate::layout::build_interleaved_host_values;
use crate::poly;
use crate::reed_solomon;
use crate::roots;
use crate::sppark::NttOrder;
use crate::transform;

verus! {

/// The domain that the preflight sets up.
pub const PREFLIGHT_DOMAIN: usize = 256;

/// Sets the twiddle domain up if it does not cover a codeword length yet, and only then.
pub fn ensure_domain_covers<I: FnOnce(u64) -> Result<(), String>>(
    domain_max: &mut u64,
    codeword_length: usize,
    initialize_domain: I,
) -> (result: Result<(), Error>)
    requires
        codeword_length > *old(domain_max) ==> initialize_domain.requires(
            (codeword_length as u64,),
        ),
    ensures
        domain_covered(
            *old(domain_max),
            *final(domain_max),
            codeword_length,
            initialize_domain,
            result,
        ),
{
    let needed: u64 = codeword_length as u64;
    if *domain_max >= needed {
        return Ok(());
    }
    let reply = initialize_domain(needed);
    let ghost received = reply;
    assert(initialize_domain.ensures((needed,), received));
    match reply {
        Ok(()) => {
            *domain_max = needed;
            Ok(())
        },
        Err(reason) => Err(Error::DomainFailed { size: needed, reason }),
    }
}

/// Whether the twiddle domain covered a codeword length, or was set up for it and that was
/// noted.
pub open spec fn domain_covered<I: FnOnce(u64) -> Result<(), String>>(
    before: u64,
    after: u64,
    codeword_length: usize,
    initialize_domain: I,
    result: Result<(), Error>,
) -> bool {
    if before >= codeword_length {
        &&& result is Ok
        &&& after == before
    } else {
        exists|reply: Result<(), String>|
            {
                &&& #[trigger] initialize_domain.ensures((codeword_length as u64,), reply)
                &&& match reply {
                    Ok(_) => result is Ok && after == codeword_length,
                    Err(reason) => {
                        &&& result == Err::<(), Error>(
                            Error::DomainFailed { size: codeword_length as u64, reason },
                        )
                        &&& after == before
                    },
                }
            }
    }
}

/// Whether the twiddle domain covers a codeword length, or may be set up for it.
pub open spec fn domain_may_cover<I: FnOnce(u64) -> Result<(), String>>(
    domain_max: u64,
    codeword_length: usize,
    initialize_domain: I,
) -> bool {
    domain_max >= codeword_length || exists|reply: Result<(), String>|
        #[trigger] initialize_domain.ensures((codeword_length as u64,), reply) && reply is Ok
}

/// The little-endian bytes of each element's value.
pub fn ark_to_icicle(src: &[Fr]) -> (scalars: Vec<Vec<u8>>)
    requires
        transform::all_valid(src@),
    ensures
        scalars@.len() == src@.len(),
        forall|i: int|
            0 <= i < src@.len() ==> (#[trigger] scalars@[i])@.len() == 32 && field::bytes_value(
                scalars@[i]@,
            ) == src@[i]@,
{
    let mut scalars: Vec<Vec<u8>> = Vec::new();
    let mut i: usize = 0;
    while i < src.len()
        invariant
            i <= src@.len(),
            transform::all_valid(src@),
            scalars@.len() == i,
            forall|j: int|
                0 <= j < i ==> (#[trigger] scalars@[j])@.len() == 32 && field::bytes_value(
                    scalars@[j]@,
                ) == src@[j]@,
        decreases src@.len() - i,
    {
        scalars.push(fr_to_bytes_le(&src[i]));
        i = i + 1;
    }
    scalars
}

/// The elements whose values little-endian bytes stand for.
pub fn icicle_to_ark(src: &[Vec<u8>]) -> (elements: Vec<Fr>)
    ensures
        elements@.len() == src@.len(),
        forall|i: int|
            0 <= i < src@.len() ==> (#[trigger] elements@[i]).valid() && elements@[i]@
                == field::bytes_value(src@[i]@) % field::modulus(),
{
    let mut elements: Vec<Fr> = Vec::new();
    let mut i: usize = 0;
    while i < src.len()
        invariant
            i <= src@.len(),
            elements@.len() == i,
            forall|j: int|
                0 <= j < i ==> (#[trigger] elements@[j]).valid() && elements@[j]@
                    == field::bytes_value(src@[j]@) % field::modulus(),
        decreases src@.len() - i,
    {
        elements.push(fr_from_le_bytes_mod_order(src[i].as_slice()));
        i = i + 1;
    }
    elements
}

/// An element that is written as bytes and read back is the same, limb for limb.
pub proof fn lemma_bytes_round_trip(element: Fr, bytes: Seq<u8>, back: Fr)
    requires
        element.valid(),
        field::bytes_value(bytes) == element@,
        back.valid(),
        back@ == field::bytes_value(bytes) % field::modulus(),
    ensures
        back == element,
{
    field::lemma_value_bounds(element);
    lemma_small_mod(element@ as nat, field::modulus() as nat);
    field::lemma_valid_unique(element, back);
}

/// The buffer that a batch is laid out in, with its first block repeated for each coset.
pub open spec fn repeated_buffer(
    messages: Seq<&[Fr]>,
    masks: Seq<Fr>,
    codeword_length: usize,
    coset_size: usize,
    num_cosets: usize,
) -> Seq<Fr> {
    layout::interleaved(
        messages,
        masks,
        messages[0]@.len(),
        messages.len() * codeword_length as nat,
        coset_size as nat * messages.len(),
        num_cosets as nat,
    )
}

/// Lays out a batch in one buffer and repeats its first block for each coset.
pub fn build_interleaved_buffer(
    messages: &[&[Fr]],
    masks: &[Fr],
    codeword_length: usize,
    coset_size: usize,
    num_cosets: usize,
) -> (result: Vec<Fr>)
    requires
        messages@.len() > 0,
        reed_solomon::uniform(messages@),
        messages@.len() * codeword_length <= usize::MAX,
        coset_size * messages@.len() <= usize::MAX,
        messages@[0]@.len() * messages@.len() + masks@.len() <= messages@.len() * codeword_length,
        num_cosets > 1 ==> {
            let chunk = coset_size * messages@.len();
            let total = messages@.len() * codeword_length;
            &&& 0 < chunk <= total
            &&& chunk * num_cosets <= total || total % chunk == 0
        },
    ensures
        result@ == repeated_buffer(messages@, masks@, codeword_length, coset_size, num_cosets),
{
    let num_messages: usize = messages.len();
    build_interleaved_host_values(
        messages,
        masks,
        messages[0].len(),
        num_messages * codeword_length,
        coset_size * num_messages,
        num_cosets,
    )
}

/// What is handed to the column-batched transform.
#[derive(Debug)]
pub struct ColumnLaunch {
    pub scalars: Vec<Vec<u8>>,
    pub batch_size: i32,
    pub columns_batch: bool,
    pub ordering: NttOrder,
}

/// The first entries of a buffer, followed by zeros.
pub open spec fn padded_block(buffer: Seq<Fr>, block: nat) -> Seq<Fr> {
    Seq::new(
        buffer.len(),
        |q: int|
            if q < block {
                buffer[q]
            } else {
                field::zero_element()
            },
    )
}

/// Overwrites all but the first entries of a buffer with zeros.
fn pad_block(values: &mut Vec<Fr>, block: usize)
    ensures
        final(values)@ == padded_block(old(values)@, block as nat),
{
    let ghost before = values@;
    let total: usize = values.len();
    let mut q: usize = block;
    while q < total
        invariant
            block <= q,
            total == values@.len(),
            total == before.len(),
            forall|i: int|
                0 <= i < total ==> (#[trigger] values@[i]) == if block <= i < q {
                    field::zero_element()
                } else {
                    before[i]
                },
        decreases total - q,
    {
        values.set(q, Fr::zero());
        q = q + 1;
    }
    assert(values@ =~= padded_block(before, block as nat));
}

/// Whether a launch is the one for given values, as many columns as there are messages.
pub open spec fn is_column_launch(launch: ColumnLaunch, input: Seq<Fr>, columns: nat) -> bool {
    &&& launch.scalars@.len() == input.len()
    &&& forall|i: int|
        0 <= i < input.len() ==> (#[trigger] launch.scalars@[i])@.len() == 32
            && field::bytes_value(launch.scalars@[i]@) == input[i]@
    &&& launch.batch_size == columns as usize as i32
    &&& launch.columns_batch
    &&& launch.ordering is NR
}

/// What a column-batched encoding comes to.
pub open spec fn columns_encoded<
    I: FnOnce(u64) -> Result<(), String>,
    K: FnOnce(ColumnLaunch) -> Result<Vec<Vec<u8>>, String>,
>(
    before: u64,
    after: u64,
    initialize_domain: I,
    kernel: K,
    input: Seq<Fr>,
    columns: nat,
    codeword_length: usize,
    result: Result<Vec<Fr>, Error>,
) -> bool {
    exists|covered: Result<(), Error>|
        {
            &&& #[trigger] domain_covered(
                before,
                after,
                codeword_length,
                initialize_domain,
                covered,
            )
            &&& match covered {
                Err(error) => result == Err::<Vec<Fr>, Error>(error),
                Ok(_) => columns_launched(kernel, input, columns, result),
            }
        }
}

/// What the launch of a column-batched transform comes to.
pub open spec fn columns_launched<K: FnOnce(ColumnLaunch) -> Result<Vec<Vec<u8>>, String>>(
    kernel: K,
    input: Seq<Fr>,
    columns: nat,
    result: Result<Vec<Fr>, Error>,
) -> bool {
    exists|launch: ColumnLaunch, reply: Result<Vec<Vec<u8>>, String>|
        {
            &&& is_column_launch(launch, input, columns)
            &&& #[trigger] kernel.ensures((launch,), reply)
            &&& match reply {
                Ok(scalars) => {
                    &&& result matches Ok(values)
                    &&& values@.len() == scalars@.len()
                    &&& forall|i: int|
                        0 <= i < scalars@.len() ==> (#[trigger] values@[i]).valid()
                            && values@[i]@ == field::bytes_value(scalars@[i]@)
                            % field::modulus()
                },
                Err(reason) => result == Err::<Vec<Fr>, Error>(
                    Error::ColumnTransformFailed { reason },
                ),
            }
        }
}

/// Launches the column-batched transform.
fn launch_columns<K: FnOnce(ColumnLaunch) -> Result<Vec<Vec<u8>>, String>>(
    kernel: K,
    input: &[Fr],
    columns: usize,
) -> (result: Result<Vec<Fr>, Error>)
    requires
        transform::all_valid(input@),
        forall|launch: ColumnLaunch|
            is_column_launch(launch, input@, columns as nat)
                ==> #[trigger] kernel.requires((launch,)),
    ensures
        columns_launched(kernel, input@, columns as nat, result),
{
    let launch = ColumnLaunch {
        scalars: ark_to_icicle(input),
        batch_size: #[verifier::truncate]
        (columns as i32),
        columns_batch: true,
        ordering: NttOrder::NR,
    };
    let ghost sent = launch;
    assert(is_column_launch(sent, input@, columns as nat));
    let reply = kernel(launch);
    let ghost received = reply;
    assert(kernel.ensures((sent,), received));
    match reply {
        Ok(scalars) => Ok(icicle_to_ark(scalars.as_slice())),
        Err(reason) => Err(Error::ColumnTransformFailed { reason }),
    }
}

/// Encodes a batch of messages with one column-batched transform. The codewords are
/// interleaved row by row, in bit-reversed order. Nothing is set up or launched for an empty
/// batch, and nothing is launched without a domain.
pub fn interleaved_encode_icicle<
    I: FnOnce(u64) -> Result<(), String>,
    K: FnOnce(ColumnLaunch) -> Result<Vec<Vec<u8>>, String>,
>(
    domain_max: &mut u64,
    initialize_domain: I,
    kernel: K,
    messages: &[&[Fr]],
    masks: &[Fr],
    codeword_length: usize,
    coset_size: usize,
    num_cosets: usize,
) -> (result: Result<Vec<Fr>, Error>)
    requires
        messages@.len() > 0 && codeword_length > *old(domain_max) ==> initialize_domain.requires(
            (codeword_length as u64,),
        ),
        messages@.len() > 0 && domain_may_cover(
            *old(domain_max),
            codeword_length,
            initialize_domain,
        ) ==> forall|launch: ColumnLaunch|
            is_column_launch(
                launch,
                padded_block(
                    repeated_buffer(messages@, masks@, codeword_length, coset_size, num_cosets),
                    coset_size as nat * messages@.len(),
                ),
                messages@.len(),
            ) ==> #[trigger] kernel.requires((launch,)),
        reed_solomon::messages_valid(messages@),
        transform::all_valid(masks@),
        messages@.len() > 0 ==> {
            &&& reed_solomon::uniform(messages@)
            &&& coset_size * num_cosets == codeword_length
            &&& codeword_length > 0
            &&& messages@.len() * codeword_length <= usize::MAX
            &&& messages@[0]@.len() * messages@.len() + masks@.len() <= messages@.len()
                * codeword_length
        },
    ensures
        messages@.len() == 0 ==> {
            &&& result matches Ok(values)
            &&& values@.len() == 0
            &&& *final(domain_max) == *old(domain_max)
        },
        messages@.len() > 0 ==> columns_encoded(
            *old(domain_max),
            *final(domain_max),
            initialize_domain,
            kernel,
            padded_block(
                repeated_buffer(messages@, masks@, codeword_length, coset_size, num_cosets),
                coset_size as nat * messages@.len(),
            ),
            messages@.len(),
            codeword_length,
            result,
        ),
{
    if messages.len() == 0 {
        return Ok(Vec::new());
    }
    let num_messages: usize = messages.len();
    proof {
        lemma_cosets_fill(
            codeword_length as int,
            coset_size as int,
            num_cosets as int,
            num_messages as int,
        );
    }
    let mut block = build_interleaved_buffer(
        messages,
        masks,
        codeword_length,
        coset_size,
        num_cosets,
    );
    pad_block(&mut block, coset_size * num_messages);
    proof {
        lemma_padded_valid(messages@, masks@, codeword_length, coset_size, num_cosets);
    }
    match ensure_domain_covers(domain_max, codeword_length, initialize_domain) {
        Ok(()) => launch_columns(kernel, block.as_slice(), num_messages),
        Err(error) => Err(error),
    }
}

/// Cosets that make up a codeword make up its buffer.
proof fn lemma_cosets_fill(codeword_length: int, coset_size: int, num_cosets: int, count: int)
    requires
        coset_size * num_cosets == codeword_length,
        codeword_length > 0,
        coset_size >= 0,
        num_cosets >= 0,
        count > 0,
    ensures
        coset_size > 0,
        num_cosets > 0,
        (coset_size * count) * num_cosets == count * codeword_length,
        0 < coset_size * count <= count * codeword_length,
{
    assert(coset_size > 0 && num_cosets > 0) by (nonlinear_arith)
        requires
            coset_size * num_cosets == codeword_length,
            codeword_length > 0,
            coset_size >= 0,
            num_cosets >= 0,
    ;
    assert((coset_size * count) * num_cosets == count * codeword_length) by (nonlinear_arith)
        requires
            coset_size * num_cosets == codeword_length,
    ;
    assert(0 < coset_size * count <= count * codeword_length) by (nonlinear_arith)
        requires
            coset_size * num_cosets == codeword_length,
            coset_size > 0,
            num_cosets > 0,
            count > 0,
    ;
}

/// The padded block of a batch is reduced if the batch is.
proof fn lemma_padded_valid(
    messages: Seq<&[Fr]>,
    masks: Seq<Fr>,
    codeword_length: usize,
    coset_size: usize,
    num_cosets: usize,
)
    requires
        messages.len() > 0,
        reed_solomon::uniform(messages),
        reed_solomon::messages_valid(messages),
        transform::all_valid(masks),
        coset_size > 0,
    ensures
        transform::all_valid(
            padded_block(
                repeated_buffer(messages, masks, codeword_length, coset_size, num_cosets),
                coset_size as nat * messages.len(),
            ),
        ),
{
    let buffer = repeated_buffer(messages, masks, codeword_length, coset_size, num_cosets);
    let chunk = coset_size as int * messages.len();
    assert(chunk > 0) by (nonlinear_arith)
        requires
            chunk == coset_size * messages.len(),
            coset_size > 0,
            messages.len() > 0,
    ;
    let padded = padded_block(buffer, chunk as nat);
    assert forall|q: int| 0 <= q < padded.len() implies (#[trigger] padded[q]).valid() by {
        if q < chunk {
            let position = if num_cosets > 1 && q / chunk < num_cosets {
                q % chunk
            } else {
                q
            };
            lemma_mod_bound(q, chunk);
            reed_solomon::lemma_base_entry_valid(messages, masks, position);
        }
    }
}

/// Checks early that the device can set a twiddle domain up.
pub fn preflight_icicle<I: FnOnce(u64) -> Result<(), String>>(
    domain_max: &mut u64,
    initialize_domain: I,
) -> (result: Result<(), Error>)
    requires
        PREFLIGHT_DOMAIN > *old(domain_max) ==> initialize_domain.requires(
            (PREFLIGHT_DOMAIN as u64,),
        ),
    ensures
        exists|covered: Result<(), Error>|
            {
                &&& #[trigger] domain_covered(
                    *old(domain_max),
                    *final(domain_max),
                    PREFLIGHT_DOMAIN,
                    initialize_domain,
                    covered,
                )
                &&& match covered {
                    Err(Error::DomainFailed { size, reason }) => result == Err::<(), Error>(
                        Error::PreflightDomainFailed { size, reason },
                    ),
                    Err(error) => result == Err::<(), Error>(error),
                    Ok(_) => result is Ok,
                }
            },
{
    let covered = ensure_domain_covers(domain_max, PREFLIGHT_DOMAIN, initialize_domain);
    match covered {
        Err(Error::DomainFailed { size, reason }) => Err(
            Error::PreflightDomainFailed { size, reason },
        ),
        Err(error) => Err(error),
        Ok(()) => Ok(()),
    }
}

/// One column of interleaved scalars, read as the coefficients of a polynomial.
pub open spec fn column_scalars(
    scalars: Seq<Vec<u8>>,
    width: int,
    rows: nat,
    column: int,
) -> Seq<int> {
    Seq::new(rows, |t: int| field::bytes_value(transform::cell(scalars, width, t, column)@))
}

/// Whether a device computes the transform of each column from natural into bit-reversed
/// order, given scalars of 32 bytes.
pub open spec fn computes_columns<K: FnOnce(ColumnLaunch) -> Result<Vec<Vec<u8>>, String>>(
    kernel: K,
) -> bool {
    forall|launch: ColumnLaunch, scalars: Vec<Vec<u8>>|
        #[trigger] kernel.ensures((launch,), Ok(scalars)) && launch.columns_batch
            && launch.ordering is NR && launch.batch_size > 0 && (forall|i: int|
            0 <= i < launch.scalars@.len() ==> (#[trigger] launch.scalars@[i])@.len() == 32)
            ==> columns_transformed(
            launch.scalars@,
            scalars@,
            launch.batch_size as int,
        )
}

/// Whether scalars are the column by column transform of others.
pub open spec fn columns_transformed(
    before: Seq<Vec<u8>>,
    after: Seq<Vec<u8>>,
    width: int,
) -> bool {
    let rows = before.len() as int / width;
    &&& after.len() == before.len()
    &&& forall|row: int, column: int|
        0 <= row < rows && 0 <= column < width ==> field::bytes_value(
            (#[trigger] transform::cell(after, width, row, column))@,
        ) % field::modulus() == poly::evaluate(
            column_scalars(before, width, rows as nat, column),
            roots::point(rows as nat, row as nat),
        ) % field::modulus()
}

/// The entries of a block of the repeated buffer are those of the padded block.
proof fn lemma_block_entry(
    messages: Seq<&[Fr]>,
    masks: Seq<Fr>,
    codeword_length: usize,
    coset_size: usize,
    num_cosets: usize,
    block: int,
    t: int,
    column: int,
)
    requires
        messages.len() > 0,
        coset_size * num_cosets == codeword_length,
        codeword_length > 0,
        0 <= block < num_cosets,
        0 <= t < coset_size,
        0 <= column < messages.len(),
    ensures
        ({
            let buffer = repeated_buffer(
                messages,
                masks,
                codeword_length,
                coset_size,
                num_cosets,
            );
            let width = messages.len() as int;
            transform::cell(buffer, width, block * coset_size + t, column) == transform::cell(
                padded_block(buffer, coset_size as nat * messages.len()),
                width,
                t,
                column,
            )
        }),
{
    let buffer = repeated_buffer(messages, masks, codeword_length, coset_size, num_cosets);
    let width = messages.len() as int;
    let size = coset_size as int;
    let chunk = size * width;
    let position = t * width + column;
    let q = (block * size + t) * width + column;
    lemma_cosets_fill(codeword_length as int, size, num_cosets as int, width);
    assert(0 <= position < chunk) by (nonlinear_arith)
        requires
            position == t * width + column,
            chunk == size * width,
            0 <= t,
            t + 1 <= size,
            0 <= column < width,
    ;
    assert(q == block * chunk + position) by (nonlinear_arith)
        requires
            q == (block * size + t) * width + column,
            position == t * width + column,
            chunk == size * width,
    ;
    assert(0 <= q < chunk * num_cosets) by (nonlinear_arith)
        requires
            q == block * chunk + position,
            0 <= position < chunk,
            0 <= block,
            block + 1 <= num_cosets,
    ;
    assert(num_cosets <= 1 ==> q == position) by (nonlinear_arith)
        requires
            q == block * chunk + position,
            0 <= block < num_cosets,
    ;
    lemma_fundamental_div_mod_converse(q, chunk, block, position);
    lemma_fundamental_div_mod_converse(position, chunk, 0, position);
    assert(buffer[q] == layout::base_entry(messages, masks, messages[0]@.len(), position));
    assert(buffer[position] == layout::base_entry(messages, masks, messages[0]@.len(), position));
}

/// If the device transforms columns right, the encoder yields what the host transform makes
/// of the buffer with its block repeated for each coset.
pub proof fn lemma_icicle_encodes<K: FnOnce(ColumnLaunch) -> Result<Vec<Vec<u8>>, String>>(
    kernel: K,
    messages: Seq<&[Fr]>,
    masks: Seq<Fr>,
    codeword_length: usize,
    coset_size: usize,
    num_cosets: usize,
    result: Result<Vec<Fr>, Error>,
)
    requires
        0 < messages.len() <= i32::MAX,
        coset_size * num_cosets == codeword_length,
        codeword_length > 0,
        computes_columns(kernel),
        columns_launched(
            kernel,
            padded_block(
                repeated_buffer(messages, masks, codeword_length, coset_size, num_cosets),
                coset_size as nat * messages.len(),
            ),
            messages.len(),
            result,
        ),
    ensures
        result matches Ok(values) ==> transform::is_transform(
            repeated_buffer(messages, masks, codeword_length, coset_size, num_cosets),
            values@,
            codeword_length as nat,
            num_cosets as nat,
        ),
{
    if let Ok(values) = result {
        let width = messages.len() as int;
        let n = codeword_length as int;
        let size = coset_size as int;
        let cosets = num_cosets as int;
        let buffer = repeated_buffer(messages, masks, codeword_length, coset_size, num_cosets);
        let padded = padded_block(buffer, (size * width) as nat);
        lemma_cosets_fill(n, size, cosets, width);
        lemma_div_multiples_vanish(width, n);
        lemma_mul_is_commutative(width, n);
        assert(buffer.len() as int / n == width);
        lemma_div_multiples_vanish(n, width);
        assert(buffer.len() as int / width == n);
        lemma_div_multiples_vanish(size, cosets);
        lemma_mul_is_commutative(size, cosets);
        assert(n / cosets == size);
        let (launch, reply) = choose|launch: ColumnLaunch, reply: Result<Vec<Vec<u8>>, String>|
            {
                &&& is_column_launch(launch, padded, width as nat)
                &&& #[trigger] kernel.ensures((launch,), reply)
                &&& reply is Ok
                &&& values@.len() == reply->Ok_0@.len()
                &&& forall|i: int|
                    0 <= i < reply->Ok_0@.len() ==> (#[trigger] values@[i]).valid()
                        && values@[i]@ == field::bytes_value(reply->Ok_0@[i]@) % field::modulus()
            };
        let scalars = reply->Ok_0;
        assert(kernel.ensures((launch,), Ok(scalars)));
        assert(launch.batch_size == width);
        assert(columns_transformed(launch.scalars@, scalars@, width));
        assert forall|row: int, column: int| 0 <= row < n && 0 <= column < width implies (
        #[trigger] transform::cell(values@, width, row, column))@ == transform::transformed(
            buffer,
            n as nat,
            cosets as nat,
            row,
            column,
        ) by {
            let block = row / size;
            lemma_multiply_divide_lt(row, size, cosets);
            lemma_div_pos_is_pos(row, size);
            let low = transform::column_coefficients(
                buffer,
                width,
                block * size,
                size as nat,
                column,
            );
            let high = Seq::new((n - size) as nat, |t: int| 0int);
            assert(size <= n) by (nonlinear_arith)
                requires
                    size * cosets == n,
                    size > 0,
                    cosets > 0,
            ;
            let coefficients = column_scalars(launch.scalars@, width, n as nat, column);
            assert forall|t: int| 0 <= t < n implies coefficients[t] == (low + high)[t] by {
                lemma_scalar_position(t, column, n, width, size);
                assert(field::bytes_value(launch.scalars@[t * width + column]@) == padded[t * width
                    + column]@);
                if t < size {
                    lemma_block_entry(
                        messages,
                        masks,
                        codeword_length,
                        coset_size,
                        num_cosets,
                        block,
                        t,
                        column,
                    );
                }
            }
            assert(coefficients =~= low + high);
            let point = roots::point(n as nat, row as nat);
            poly::lemma_evaluate_parts(low, high, point);
            poly::lemma_evaluate_zeros(high, point);
            lemma_scalar_position(row, column, n, width, size);
            assert(transform::cell(scalars@, width, row, column) == scalars@[row * width
                + column]);
            assert(transform::cell(values@, width, row, column) == values@[row * width + column]);
        }
    }
}

/// The entries of a column stand inside the buffer, and those past the block behind it.
proof fn lemma_scalar_position(row: int, column: int, rows: int, width: int, size: int)
    requires
        0 <= row < rows,
        0 <= column < width,
    ensures
        0 <= row * width + column < width * rows,
        row < size <==> row * width + column < size * width,
{
    assert(0 <= row * width + column < width * rows) by (nonlinear_arith)
        requires
            0 <= row,
            row + 1 <= rows,
            0 <= column < width,
    ;
    assert(row < size <==> row * width + column < size * width) by (nonlinear_arith)
        requires
            0 <= column < width,
    ;
}

/// If the device transforms columns right, its encoder and the host transform of the
/// repeated buffer agree limb for limb.
pub proof fn lemma_icicle_matches_host<K: FnOnce(ColumnLaunch) -> Result<Vec<Vec<u8>>, String>>(
    kernel: K,
    messages: Seq<&[Fr]>,
    masks: Seq<Fr>,
    codeword_length: usize,
    coset_size: usize,
    num_cosets: usize,
    result: Result<Vec<Fr>, Error>,
    host: Seq<Fr>,
)
    requires
        0 < messages.len() <= i32::MAX,
        coset_size * num_cosets == codeword_length,
        codeword_length > 0,
        computes_columns(kernel),
        columns_launched(
            kernel,
            padded_block(
                repeated_buffer(messages, masks, codeword_length, coset_size, num_cosets),
                coset_size as nat * messages.len(),
            ),
            messages.len(),
            result,
        ),
        transform::is_transform(
            repeated_buffer(messages, masks, codeword_length, coset_size, num_cosets),
            host,
            codeword_length as nat,
            num_cosets as nat,
        ),
    ensures
        result matches Ok(values) ==> values@ == host,
{
    lemma_icicle_encodes(
        kernel,
        messages,
        masks,
        codeword_length,
        coset_size,
        num_cosets,
        result,
    );
    if let Ok(values) = result {
        lemma_mod_multiples_basic(messages.len() as int, codeword_length as int);
        transform::lemma_transform_unique(
            repeated_buffer(messages, masks, codeword_length, coset_size, num_cosets),
            values@,
            host,
            codeword_length as nat,
            num_cosets as nat,
        );
    }
}

/// A domain never shrinks, it covers what it was set up for, and from then on it is not set
/// up again.
pub proof fn lemma_domain_grows<
    I: FnOnce(u64) -> Result<(), String>,
    L: FnOnce(u64) -> Result<(), String>,
>(
    start: u64,
    between: u64,
    end: u64,
    codeword_length: usize,
    initialize_domain: I,
    later: L,
    first: Result<(), Error>,
    second: Result<(), Error>,
)
    requires
        domain_covered(start, between, codeword_length, initialize_domain, first),
        domain_covered(between, end, codeword_length, later, second),
    ensures
        between >= start,
        first is Ok ==> between >= codeword_length && second is Ok && end == between,
{
}

} // verus!
