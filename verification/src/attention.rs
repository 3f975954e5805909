//! Attention: which implementation the diffusion transformer uses, and how the
//! autoencoder's attention is cut into row chunks.

use vstd::prelude::*;

use crate::text::debug_quoted;
use crate::text::joined;
use crate::text::same_text;
use crate::text::signed_decimal;

verus! {

/// Number formats that a tensor can have.
#[derive(Clone, Copy, Debug, PartialEq, Eq, Structural)]
pub enum Dtype {
    U8,
    U32,
    I16,
    I32,
    I64,
    BF16,
    F16,
    F32,
    F64,
    F8E4M3,
    F6E2M3,
    F6E3M2,
    F4,
    F8E8M0,
}

impl Dtype {
    /// The format's name.
    pub open spec fn label(self) -> Seq<char> {
        match self {
            Dtype::U8 => "U8"@,
            Dtype::U32 => "U32"@,
            Dtype::I16 => "I16"@,
            Dtype::I32 => "I32"@,
            Dtype::I64 => "I64"@,
            Dtype::BF16 => "BF16"@,
            Dtype::F16 => "F16"@,
            Dtype::F32 => "F32"@,
            Dtype::F64 => "F64"@,
            Dtype::F8E4M3 => "F8E4M3"@,
            Dtype::F6E2M3 => "F6E2M3"@,
            Dtype::F6E3M2 => "F6E3M2"@,
            Dtype::F4 => "F4"@,
            Dtype::F8E8M0 => "F8E8M0"@,
        }
    }

    /// The format's name.
    pub fn name(self) -> (name: &'static str)
        ensures
            name@ == self.label(),
    {
        match self {
            Dtype::U8 => "U8",
            Dtype::U32 => "U32",
            Dtype::I16 => "I16",
            Dtype::I32 => "I32",
            Dtype::I64 => "I64",
            Dtype::BF16 => "BF16",
            Dtype::F16 => "F16",
            Dtype::F32 => "F32",
            Dtype::F64 => "F64",
            Dtype::F8E4M3 => "F8E4M3",
            Dtype::F6E2M3 => "F6E2M3",
            Dtype::F6E3M2 => "F6E3M2",
            Dtype::F4 => "F4",
            Dtype::F8E8M0 => "F8E8M0",
        }
    }

    /// Whether the format is one of the two half-precision ones.
    pub open spec fn half(self) -> bool {
        self is F16 || self is BF16
    }
}

/// Where tensors live.
#[derive(Clone, Copy, Debug, PartialEq, Eq, Structural)]
pub enum DeviceKind {
    Cpu,
    Cuda,
    Metal,
}

/// The accelerators that the program was built for.
#[derive(Clone, Copy, Debug, PartialEq, Eq, Structural)]
pub struct Build {
    pub cuda: bool,
    pub metal: bool,
}

/// How attention is computed.
#[derive(Clone, Copy, Debug, PartialEq, Eq, Structural)]
pub enum AttentionBackend {
    /// Matrix products and softmax: works everywhere.
    Candle,
    /// FlashAttention on CUDA.
    Flash,
    /// The fused kernel on Metal.
    Metal,
}

/// Why a requested backend cannot be used.
#[derive(Debug)]
pub enum AttentionError<E> {
    /// FlashAttention was asked of a build without CUDA.
    FlashBuild,
    /// FlashAttention was asked for off CUDA.
    FlashDevice,
    /// FlashAttention was asked for at full precision.
    FlashDtype(Dtype),
    /// The device is older than FlashAttention supports.
    FlashCapability(i32, i32),
    /// The Metal kernel was asked of a build without Metal.
    MetalBuild,
    /// The Metal kernel was asked for off Metal.
    MetalDevice,
    /// The Metal kernel does not know the number format.
    MetalDtype(Dtype),
    /// The setting is none of those there are.
    Unknown(String),
    /// The device would not tell its capability.
    Query(E),
}

/// Whether the setting leaves the choice to the program.
pub open spec fn is_auto(setting: Option<&str>) -> bool {
    match setting {
        None => true,
        Some(s) => s@ == ""@ || s@ == "auto"@,
    }
}

/// Whether the setting asks for the portable backend.
pub open spec fn asks_portable(s: &str) -> bool {
    s@ == "candle"@ || s@ == "baseline"@
}

/// Whether the device can run FlashAttention.
pub open spec fn can_flash(capability: Option<(i32, i32)>) -> bool {
    capability matches Some(c) && c.0 >= 8
}

/// Whether the Metal kernel takes the format.
pub open spec fn metal_dtype(dtype: Dtype) -> bool {
    dtype.half() || dtype is F32
}

/// The backend that an automatic choice gives.
pub open spec fn automatic<E>(
    device: DeviceKind,
    dtype: Dtype,
    build: Build,
    capability: Result<Option<(i32, i32)>, E>,
) -> Result<AttentionBackend, AttentionError<E>> {
    if build.cuda && dtype.half() && capability is Err {
        Err(AttentionError::Query(capability->Err_0))
    } else if build.cuda && dtype.half() && can_flash(capability->Ok_0) {
        Ok(AttentionBackend::Flash)
    } else if build.metal && device is Metal && metal_dtype(dtype) {
        Ok(AttentionBackend::Metal)
    } else {
        Ok(AttentionBackend::Candle)
    }
}

/// What asking for FlashAttention gives.
pub open spec fn flash<E>(
    dtype: Dtype,
    build: Build,
    capability: Result<Option<(i32, i32)>, E>,
) -> Result<AttentionBackend, AttentionError<E>> {
    if !build.cuda {
        Err(AttentionError::FlashBuild)
    } else {
        match capability {
            Err(e) => Err(AttentionError::Query(e)),
            Ok(None) => Err(AttentionError::FlashDevice),
            Ok(Some((major, minor))) => if !dtype.half() {
                Err(AttentionError::FlashDtype(dtype))
            } else if major < 8 {
                Err(AttentionError::FlashCapability(major, minor))
            } else {
                Ok(AttentionBackend::Flash)
            },
        }
    }
}

/// What asking for the Metal kernel gives.
pub open spec fn metal<E>(device: DeviceKind, dtype: Dtype, build: Build) -> Result<
    AttentionBackend,
    AttentionError<E>,
> {
    if !build.metal {
        Err(AttentionError::MetalBuild)
    } else if !(device is Metal) {
        Err(AttentionError::MetalDevice)
    } else if !metal_dtype(dtype) {
        Err(AttentionError::MetalDtype(dtype))
    } else {
        Ok(AttentionBackend::Metal)
    }
}

impl AttentionBackend {
    /// Chooses the backend from the setting, the device, the number format and the
    /// build. `capability` is what the device says of its CUDA compute capability:
    /// nothing where it is no CUDA device.
    pub fn from_setting<E>(
        setting: Option<&str>,
        device: DeviceKind,
        dtype: Dtype,
        build: Build,
        capability: Result<Option<(i32, i32)>, E>,
    ) -> (result: Result<AttentionBackend, AttentionError<E>>)
        ensures
            is_auto(setting) ==> result == automatic(device, dtype, build, capability),
            !is_auto(setting) && asks_portable(setting->0) ==> result
                == Ok::<AttentionBackend, AttentionError<E>>(AttentionBackend::Candle),
            !is_auto(setting) && (setting->0)@ == "flash"@ ==> result == flash(
                dtype,
                build,
                capability,
            ),
            !is_auto(setting) && (setting->0)@ == "metal"@ ==> result == metal::<E>(
                device,
                dtype,
                build,
            ),
            !is_auto(setting) && !asks_portable(setting->0) && (setting->0)@ != "flash"@ && (
            setting->0)@ != "metal"@ <==> (result matches Err(AttentionError::Unknown(_))),
            result matches Err(AttentionError::Unknown(value)) ==> value@ == (setting->0)@,
    {
        proof {
            reveal_strlit("");
            reveal_strlit("auto");
            reveal_strlit("candle");
            reveal_strlit("baseline");
            reveal_strlit("flash");
            reveal_strlit("metal");
            assert("candle"@[0] == 'c' && "baseline"@[0] == 'b' && "flash"@[0] == 'f' && "metal"@[0]
                == 'm');
        }
        let half: bool = match dtype {
            Dtype::F16 | Dtype::BF16 => true,
            _ => false,
        };
        let metal_ok: bool = match dtype {
            Dtype::F16 | Dtype::BF16 | Dtype::F32 => true,
            _ => false,
        };
        let on_metal: bool = match device {
            DeviceKind::Metal => true,
            _ => false,
        };
        let value: &str = match setting {
            None => "auto",
            Some(value) => value,
        };
        if same_text(value, "") || same_text(value, "auto") {
            if build.cuda && half {
                match capability {
                    Err(e) => {
                        return Err(AttentionError::Query(e));
                    },
                    Ok(Some((major, _))) => {
                        if major >= 8 {
                            return Ok(AttentionBackend::Flash);
                        }
                    },
                    Ok(None) => {},
                }
            }
            if build.metal && on_metal && metal_ok {
                return Ok(AttentionBackend::Metal);
            }
            return Ok(AttentionBackend::Candle);
        }
        if same_text(value, "candle") || same_text(value, "baseline") {
            return Ok(AttentionBackend::Candle);
        }
        if same_text(value, "flash") {
            if !build.cuda {
                return Err(AttentionError::FlashBuild);
            }
            return match capability {
                Err(e) => Err(AttentionError::Query(e)),
                Ok(None) => Err(AttentionError::FlashDevice),
                Ok(Some((major, minor))) => if !half {
                    Err(AttentionError::FlashDtype(dtype))
                } else if major < 8 {
                    Err(AttentionError::FlashCapability(major, minor))
                } else {
                    Ok(AttentionBackend::Flash)
                },
            };
        }
        if same_text(value, "metal") {
            if !build.metal {
                return Err(AttentionError::MetalBuild);
            }
            if !on_metal {
                return Err(AttentionError::MetalDevice);
            }
            if !metal_ok {
                return Err(AttentionError::MetalDtype(dtype));
            }
            return Ok(AttentionBackend::Metal);
        }
        Err(AttentionError::Unknown(value.to_owned()))
    }

    /// The backend's name in diagnostics.
    pub fn name(self) -> (name: &'static str)
        ensures
            name@ == match self {
                AttentionBackend::Candle => "candle"@,
                AttentionBackend::Flash => "flash"@,
                AttentionBackend::Metal => "metal-sdpa"@,
            },
    {
        match self {
            AttentionBackend::Candle => "candle",
            AttentionBackend::Flash => "flash",
            AttentionBackend::Metal => "metal-sdpa",
        }
    }
}

impl<E> AttentionError<E> {
    /// The message, where the library words it: a failed query speaks for itself.
    pub open spec fn wording(&self) -> Option<Seq<char>> {
        match self {
            AttentionError::FlashBuild => Some(
                "VOSR_ATTENTION=flash requires building with the cuda feature"@,
            ),
            AttentionError::FlashDevice => Some("VOSR_ATTENTION=flash requires a CUDA device"@),
            AttentionError::FlashDtype(dtype) => Some(
                "VOSR_ATTENTION=flash requires f16 or bf16, got "@ + dtype.label(),
            ),
            AttentionError::FlashCapability(major, minor) => Some(
                "VOSR_ATTENTION=flash requires CUDA compute capability 8.0 or newer, got "@
                    + crate::text::signed_digits(*major as int) + "."@
                    + crate::text::signed_digits(*minor as int),
            ),
            AttentionError::MetalBuild => Some(
                "VOSR_ATTENTION=metal requires building with the metal feature"@,
            ),
            AttentionError::MetalDevice => Some("VOSR_ATTENTION=metal requires a Metal device"@),
            AttentionError::MetalDtype(dtype) => Some(
                "VOSR_ATTENTION=metal requires f16, bf16, or f32, got "@ + dtype.label(),
            ),
            AttentionError::Unknown(value) => Some(
                "VOSR_ATTENTION must be auto, candle, baseline, flash, or metal (got "@
                    + crate::text::debug_form(value@) + ")"@,
            ),
            AttentionError::Query(_) => None,
        }
    }

    /// The message, where the library words it.
    pub fn message(&self) -> (text: Option<String>)
        ensures
            text is Some <==> self.wording() is Some,
            text matches Some(t) ==> Some(t@) == self.wording(),
    {
        match self {
            AttentionError::FlashBuild => Some(
                "VOSR_ATTENTION=flash requires building with the cuda feature".to_owned(),
            ),
            AttentionError::FlashDevice => Some(
                "VOSR_ATTENTION=flash requires a CUDA device".to_owned(),
            ),
            AttentionError::FlashDtype(dtype) => Some(
                joined("VOSR_ATTENTION=flash requires f16 or bf16, got ", dtype.name()),
            ),
            AttentionError::FlashCapability(major, minor) => {
                let left: String = signed_decimal(*major as i64);
                let right: String = signed_decimal(*minor as i64);
                let mut text: String = joined(
                    "VOSR_ATTENTION=flash requires CUDA compute capability 8.0 or newer, got ",
                    left.as_str(),
                );
                text.append(".");
                text.append(right.as_str());
                Some(text)
            },
            AttentionError::MetalBuild => Some(
                "VOSR_ATTENTION=metal requires building with the metal feature".to_owned(),
            ),
            AttentionError::MetalDevice => Some(
                "VOSR_ATTENTION=metal requires a Metal device".to_owned(),
            ),
            AttentionError::MetalDtype(dtype) => Some(
                joined("VOSR_ATTENTION=metal requires f16, bf16, or f32, got ", dtype.name()),
            ),
            AttentionError::Unknown(value) => {
                let quoted: String = debug_quoted(value.as_str());
                let mut text: String = joined(
                    "VOSR_ATTENTION must be auto, candle, baseline, flash, or metal (got ",
                    quoted.as_str(),
                );
                text.append(")");
                Some(text)
            },
            AttentionError::Query(_) => None,
        }
    }
}

/// On a device that is neither CUDA nor Metal, an automatic choice is the portable
/// backend, whatever the number format and the build.
pub proof fn law_portable_devices<E>(
    dtype: Dtype,
    build: Build,
    capability: Result<Option<(i32, i32)>, E>,
)
    requires
        capability == Ok::<Option<(i32, i32)>, E>(None),
    ensures
        automatic(DeviceKind::Cpu, dtype, build, capability) == Ok::<
            AttentionBackend,
            AttentionError<E>,
        >(AttentionBackend::Candle),
{
}

/// Query rows that are attended at a time, over the whole batch.
pub const ATTN_ROW_BUDGET: usize = 2048;

/// Query rows per chunk for one element of a batch.
pub open spec fn chunk_rows(batch: int) -> int {
    crate::tiling::max2(2048int / batch, 1)
}

/// `chunks` are the chunks, as `(start, length)`, of `rows` query rows.
pub open spec fn is_chunked(chunks: Seq<(usize, usize)>, batch: int, rows: int) -> bool {
    &&& chunks.len() == crate::tiling::step_count(rows, chunk_rows(batch))
    &&& forall|k: int|
        #![trigger chunks[k]]
        0 <= k < chunks.len() ==> chunks[k].0 == k * chunk_rows(batch) && chunks[k].1
            == crate::tiling::min2(chunk_rows(batch), rows - k * chunk_rows(batch))
}

/// Splits `rows` query rows into consecutive chunks, as `(start, length)`, so that
/// a chunk holds about [`ATTN_ROW_BUDGET`] rows over the whole batch.
pub fn query_chunks(batch: usize, rows: usize) -> (chunks: Vec<(usize, usize)>)
    requires
        batch >= 1,
    ensures
        is_chunked(chunks@, batch as int, rows as int),
{
    let share: usize = ATTN_ROW_BUDGET / batch;
    let chunk: usize = if share > 1 { share } else { 1 };
    let mut chunks: Vec<(usize, usize)> = Vec::new();
    let mut start: usize = 0;
    let ghost mut k: int = 0;
    proof {
        assert(0 * chunk == 0);
        crate::tiling::lemma_step_count(rows as int, chunk as int, 0);
    }
    while start < rows
        invariant
            chunk == chunk_rows(batch as int),
            chunk >= 1,
            k >= 0,
            chunks@.len() == k,
            start <= rows,
            start < rows ==> start == k * chunk,
            start == rows ==> k * chunk >= rows && (k >= 1 ==> (k - 1) * chunk < rows),
            forall|i: int|
                #![trigger chunks@[i]]
                0 <= i < k ==> chunks@[i].0 == i * chunk && chunks@[i].1 == crate::tiling::min2(
                    chunk as int,
                    rows - i * chunk,
                ),
        decreases rows - start,
    {
        let len: usize = if chunk < rows - start { chunk } else { rows - start };
        chunks.push((start, len));
        start = start + len;
        proof {
            assert((k + 1) * chunk == k * chunk + chunk) by (nonlinear_arith);
            k = k + 1;
        }
    }
    proof {
        crate::tiling::lemma_step_count(rows as int, chunk as int, k);
        if k >= 1 {
            crate::tiling::lemma_step_count(rows as int, chunk as int, k - 1);
        }
    }
    chunks
}

/// The chunks follow each other without gap or overlap and end with the rows, so
/// every query row is attended exactly once.
pub proof fn law_chunks_partition(batch: int, rows: nat, k: int)
    requires
        batch >= 1,
        0 <= k < crate::tiling::step_count(rows as int, chunk_rows(batch)),
    ensures
        ({
            let c = chunk_rows(batch);
            let n = crate::tiling::step_count(rows as int, c);
            let len = crate::tiling::min2(c, rows - k * c);
            &&& len >= 1
            &&& k + 1 < n ==> k * c + len == (k + 1) * c
            &&& k + 1 == n ==> k * c + len == rows
        }),
{
    let c = chunk_rows(batch);
    let n = crate::tiling::step_count(rows as int, c);
    crate::tiling::lemma_step_count(rows as int, c, k);
    crate::tiling::lemma_step_count(rows as int, c, k + 1);
    assert((k + 1) * c == k * c + c) by (nonlinear_arith);
}

/// The names of the four projections of the autoencoder's attention. Older
/// checkpoints have a `query` projection, newer ones renamed all four.
pub fn projection_names(has_query: bool) -> (names: [&'static str; 4])
    ensures
        has_query ==> names@[0]@ == "query"@ && names@[1]@ == "key"@ && names@[2]@ == "value"@
            && names@[3]@ == "proj_attn"@,
        !has_query ==> names@[0]@ == "to_q"@ && names@[1]@ == "to_k"@ && names@[2]@ == "to_v"@
            && names@[3]@ == "to_out.0"@,
{
    if has_query {
        ["query", "key", "value", "proj_attn"]
    } else {
        ["to_q", "to_k", "to_v", "to_out.0"]
    }
}

/// An automatic choice is FlashAttention exactly where it runs: in a CUDA build, at half
/// precision, on a device of compute capability 8 or newer. It is the Metal kernel where
/// that runs and FlashAttention does not, and it fails only where the device has to be
/// asked for its capability and does not tell it.
pub proof fn law_automatic_choice_is_the_fastest<E>(
    device: DeviceKind,
    dtype: Dtype,
    build: Build,
    capability: Result<Option<(i32, i32)>, E>,
)
    ensures
        ({
            let choice = automatic(device, dtype, build, capability);
            let half = dtype is F16 || dtype is BF16;
            let new = capability matches Ok(Some(c)) && c.0 >= 8;
            let asked = build.cuda && half;
            let kernel = build.metal && device is Metal && (half || dtype is F32);
            &&& choice == Ok::<AttentionBackend, AttentionError<E>>(AttentionBackend::Flash)
                <==> asked && new
            &&& choice is Err <==> asked && capability is Err
            &&& choice matches Err(e) ==> e == AttentionError::<E>::Query(capability->Err_0)
            &&& choice == Ok::<AttentionBackend, AttentionError<E>>(AttentionBackend::Metal)
                <==> kernel && !(asked && (new || capability is Err))
            &&& choice == Ok::<AttentionBackend, AttentionError<E>>(AttentionBackend::Candle)
                <==> !kernel && !(asked && (new || capability is Err))
        }),
{
}

/// Asking for a backend and leaving the choice open agree: what is chosen can be asked
/// for, and where FlashAttention can be asked for, it is chosen.
pub proof fn law_choice_can_be_asked_for<E>(
    device: DeviceKind,
    dtype: Dtype,
    build: Build,
    capability: Result<Option<(i32, i32)>, E>,
)
    ensures
        automatic(device, dtype, build, capability) == Ok::<AttentionBackend, AttentionError<E>>(
            AttentionBackend::Flash,
        ) <==> flash(dtype, build, capability) is Ok,
        automatic(device, dtype, build, capability) == Ok::<AttentionBackend, AttentionError<E>>(
            AttentionBackend::Metal,
        ) ==> metal::<E>(device, dtype, build) is Ok,
        metal::<E>(device, dtype, build) is Ok && !(flash(dtype, build, capability) is Ok)
            && capability is Ok ==> automatic(device, dtype, build, capability) == Ok::<
            AttentionBackend,
            AttentionError<E>,
        >(AttentionBackend::Metal),
        flash(dtype, build, capability) matches Ok(b) ==> b is Flash,
        metal::<E>(device, dtype, build) matches Ok(b) ==> b is Metal,
{
}

/// A refusal names the first thing that is missing: the build, the device, the number
/// format, the capability, in that order.
pub proof fn law_refusals_name_what_is_missing<E>(
    device: DeviceKind,
    dtype: Dtype,
    build: Build,
    capability: Result<Option<(i32, i32)>, E>,
)
    ensures
        ({
            let half = dtype is F16 || dtype is BF16;
            let f = flash(dtype, build, capability);
            let m = metal::<E>(device, dtype, build);
            &&& (f matches Err(AttentionError::FlashBuild)) <==> !build.cuda
            &&& (f matches Err(AttentionError::Query(_))) <==> build.cuda && capability is Err
            &&& (f matches Err(AttentionError::FlashDevice)) <==> build.cuda && (capability matches Ok(
                None,
            ))
            &&& f == Err::<AttentionBackend, AttentionError<E>>(AttentionError::FlashDtype(dtype))
                <==> build.cuda && (capability matches Ok(Some(_))) && !half
            &&& (f matches Err(AttentionError::FlashCapability(_, _))) <==> build.cuda && half && (
            capability matches Ok(Some(c)) && c.0 < 8)
            &&& f matches Err(AttentionError::FlashCapability(major, minor)) ==> capability
                == Ok::<Option<(i32, i32)>, E>(Some((major, minor)))
            &&& (m matches Err(AttentionError::MetalBuild)) <==> !build.metal
            &&& (m matches Err(AttentionError::MetalDevice)) <==> build.metal && !(device is Metal)
            &&& m == Err::<AttentionBackend, AttentionError<E>>(AttentionError::MetalDtype(dtype))
                <==> build.metal && device is Metal && !half && !(dtype is F32)
        }),
{
}

/// A chunk is as large as the budget of 2048 rows allows: over the whole batch it stays
/// within the budget, and one row more per element would not. A batch that is larger
/// than the budget is attended row by row.
pub proof fn law_chunks_fill_the_budget(batch: int)
    requires
        batch >= 1,
    ensures
        ({
            let rows = chunk_rows(batch);
            &&& rows >= 1
            &&& batch <= 2048 ==> batch * rows <= 2048 < batch * (rows + 1)
            &&& batch > 2048 ==> rows == 1
        }),
{
    let q = 2048int / batch;
    vstd::arithmetic::div_mod::lemma_fundamental_div_mod(2048, batch);
    vstd::arithmetic::div_mod::lemma_mod_bound(2048, batch);
    assert(batch * (q + 1) == batch * q + batch) by (nonlinear_arith);
    assert(batch <= 2048 ==> q >= 1) by (nonlinear_arith)
        requires
            2048 < batch * q + batch,
            batch >= 1,
    ;
    assert(batch > 2048 ==> q <= 0) by (nonlinear_arith)
        requires
            batch * q <= 2048,
            batch >= 1,
    ;
}

/// The chunks are laid end to end over the rows: the first begins with the first row,
/// each next one where the one before it ended, the last ends with the last row; all but
/// the last are of one length, which the last does not exceed.
pub proof fn law_chunks_are_laid_end_to_end(
    chunks: Seq<(usize, usize)>,
    batch: int,
    rows: nat,
    k: int,
)
    requires
        batch >= 1,
        is_chunked(chunks, batch, rows as int),
        0 <= k < chunks.len(),
    ensures
        chunks[0].0 == 0,
        chunks[k].1 >= 1,
        k + 1 < chunks.len() ==> chunks[k + 1].0 == chunks[k].0 + chunks[k].1 && chunks[k].1
            == chunks[0].1,
        k + 1 == chunks.len() ==> chunks[k].0 + chunks[k].1 == rows && chunks[k].1 <= chunks[0].1,
        chunks.len() >= 2 ==> (chunks[0].1 == 1 || batch * chunks[0].1 <= 2048) && 2048 < batch * (
        chunks[0].1 + 1),
{
    let c = chunk_rows(batch);
    law_chunks_partition(batch, rows, k);
    law_chunks_fill_the_budget(batch);
    let (first, own) = (chunks[0], chunks[k]);
    assert(0 * c == 0);
    law_chunks_partition(batch, rows, 0);
    if k + 1 < chunks.len() {
        let next = chunks[k + 1];
    }
    assert((k + 1) * c == k * c + c) by (nonlinear_arith);
    assert(k >= 1 ==> k * c >= c) by (nonlinear_arith)
        requires
            c >= 1,
    ;
    if chunks.len() >= 2 {
        assert(1 * c == c);
        assert(first.1 == c);
        assert(batch > 2048 ==> batch * (c + 1) > 2048) by (nonlinear_arith)
            requires
                c >= 1,
        ;
    }
}

/// Where there are rows there are chunks.
pub proof fn law_rows_have_chunks(chunks: Seq<(usize, usize)>, batch: int, rows: nat)
    requires
        batch >= 1,
        is_chunked(chunks, batch, rows as int),
    ensures
        chunks.len() == 0 <==> rows == 0,
{
    law_chunks_fill_the_budget(batch);
    crate::tiling::lemma_step_count(rows as int, chunk_rows(batch), 0);
    assert(0 * chunk_rows(batch) == 0);
}

/// A setting leaves the choice open, asks for one of the backends, or is none there is:
/// no two of these at once.
pub proof fn law_settings_are_told_apart(s: &str)
    ensures
        is_auto(None),
        is_auto(Some(s)) <==> s@ == ""@ || s@ == "auto"@,
        asks_portable(s) <==> s@ == "candle"@ || s@ == "baseline"@,
        is_auto(Some(s)) ==> !asks_portable(s) && s@ != "flash"@ && s@ != "metal"@,
        asks_portable(s) ==> s@ != "flash"@ && s@ != "metal"@,
        "flash"@ != "metal"@,
{
    reveal_strlit("");
    reveal_strlit("auto");
    reveal_strlit("candle");
    reveal_strlit("baseline");
    reveal_strlit("flash");
    reveal_strlit("metal");
    assert(""@.len() == 0 && "candle"@.len() == 6 && "baseline"@.len() == 8 && "flash"@.len() == 5
        && "metal"@.len() == 5);
    assert("auto"@[0] == 'a' && "candle"@[0] == 'c' && "baseline"@[0] == 'b' && "flash"@[0] == 'f'
        && "metal"@[0] == 'm');
}

} // verus!
