//! Weight files as bytes: recognizing one, describing what is not one, and reading
//! a tensor out of one.

use vstd::prelude::*;

use crate::text::debug_quoted;
use crate::text::decimal;

verus! {

/// The content of a tensor file: per name, the shape and the raw data.
#[verifier::external_type_specification]
#[verifier::external_body]
pub struct ExSafeTensors<'data>(safetensors::SafeTensors<'data>);

/// Why a tensor file was refused.
#[verifier::external_type_specification]
#[verifier::external_body]
pub struct ExSafeTensorError(safetensors::SafeTensorError);

/// The tensors that a parsed file holds.
pub uninterp spec fn held_tensors(file: safetensors::SafeTensors<'_>) -> Map<
    Seq<char>,
    (Seq<usize>, Seq<u8>),
>;

/// The tensors of a file, or nothing where it is malformed.
pub uninterp spec fn parsed_tensors(file: Seq<u8>) -> Option<
    Map<Seq<char>, (Seq<usize>, Seq<u8>)>,
>;

/// Whether an error about a tensor file may be put in these words.
pub uninterp spec fn error_says(error: safetensors::SafeTensorError, words: Seq<char>) -> bool;

/// Whether refusing a file may be put in these words.
pub uninterp spec fn refused_in_words(file: Seq<u8>, words: Seq<char>) -> bool;

/// Whether a byte is an ASCII digit.
pub open spec fn digit_byte(b: u8) -> bool {
    48 <= b <= 57
}

/// Where a byte of a header stands.
#[derive(Clone, Copy, PartialEq, Eq, Structural)]
pub enum Place {
    /// Outside of strings.
    Bare,
    /// In a string.
    Quoted,
    /// In a string, behind a backslash.
    Escaped,
}

/// The place behind a byte.
pub open spec fn place_behind(at: Place, b: u8) -> Place {
    match at {
        Place::Bare => if b == 34 { Place::Quoted } else { Place::Bare },
        Place::Quoted => if b == 34 {
            Place::Bare
        } else if b == 92 {
            Place::Escaped
        } else {
            Place::Quoted
        },
        Place::Escaped => Place::Quoted,
    }
}

/// The place of byte `i` of a header that begins at `from`.
pub open spec fn place_of(s: Seq<u8>, from: int, i: int) -> Place
    decreases i - from,
{
    if i <= from {
        Place::Bare
    } else {
        place_behind(place_of(s, from, i - 1), s[i - 1])
    }
}

/// Byte `k` is a digit of a number, not of a string.
pub open spec fn number_byte(s: Seq<u8>, from: int, k: int) -> bool {
    digit_byte(s[k]) && place_of(s, from, k) is Bare
}

/// The digits from `i` up to `j`, and none beside them, make up a number.
pub open spec fn number_at(s: Seq<u8>, from: int, to: int, i: int, j: int) -> bool {
    &&& from <= i < j <= to
    &&& forall|k: int| i <= k < j ==> #[trigger] number_byte(s, from, k)
    &&& i > from ==> !number_byte(s, from, i - 1)
    &&& j < to ==> !number_byte(s, from, j)
}

/// The value of the digits from `i` up to `j`.
pub open spec fn number_value(s: Seq<u8>, i: int, j: int) -> int
    decreases j - i,
{
    if j <= i {
        0
    } else {
        10 * number_value(s, i, j - 1) + (s[j - 1] - 48)
    }
}

/// A number that is a `usize`, but is none any more once `more` is added.
pub open spec fn overflows_at(s: Seq<u8>, from: int, to: int, more: int, i: int, j: int) -> bool {
    &&& number_at(s, from, to, i, j)
    &&& number_value(s, i, j) <= usize::MAX
    &&& number_value(s, i, j) + more > usize::MAX
}

/// Some number of the header overflows when `more` is added to it.
pub open spec fn has_overflow(s: Seq<u8>, from: int, to: int, more: int) -> bool {
    exists|i: int, j: int| #[trigger] overflows_at(s, from, to, more, i, j)
}

/// The header length that a file states in its first eight bytes.
pub open spec fn header_len(file: Seq<u8>) -> int {
    file[0] + 0x100 * file[1] + 0x1_0000 * file[2] + 0x100_0000 * file[3] + 0x1_0000_0000 * file[4]
        + 0x100_0000_0000 * file[5] + 0x1_0000_0000_0000 * file[6] + 0x100_0000_0000_0000 * file[7]
}

/// Where the file states a header that lies inside it, no number in the header
/// overflows when the header's end is added to it.
pub open spec fn numbers_fit(file: Seq<u8>) -> bool {
    file.len() >= 8 && 8 + header_len(file) <= file.len() ==> !has_overflow(
        file,
        8,
        8 + header_len(file),
        8 + header_len(file),
    )
}

/// `safetensors::SafeTensors::deserialize`. Whether a file is accepted, and what it
/// then holds, depends on its bytes alone; which bytes make up which tensors is the
/// format's business and is left unsaid. A refusal is put in words that go with the
/// file; which of several is left unsaid, since it can name any of several offending
/// tensors. It adds the end of the header to the
/// largest number that it reads in it, so files in which such a sum overflows are
/// left out.
#[verifier::external_body]
fn open_tensors(file: &[u8]) -> (parsed: Result<
    safetensors::SafeTensors<'_>,
    safetensors::SafeTensorError,
>)
    requires
        numbers_fit(file@),
    ensures
        parsed is Ok <==> parsed_tensors(file@) is Some,
        parsed matches Ok(p) ==> held_tensors(p) == parsed_tensors(file@)->0,
        parsed matches Err(e) ==> forall|words: Seq<char>| #[trigger]
            error_says(e, words) ==> refused_in_words(file@, words),
{
    safetensors::SafeTensors::deserialize(file)
}

/// The words for a tensor that a file does not hold.
pub open spec fn not_found(name: Seq<char>) -> Seq<char> {
    "tensor `"@ + name + "` not found"@
}

/// `safetensors::SafeTensors::tensor`: the shape and the data of the tensor of that
/// name, if the file holds one, else an error that says which was not found.
#[verifier::external_body]
fn find_tensor(file: &safetensors::SafeTensors<'_>, name: &str) -> (tensor: Result<
    (Vec<usize>, Vec<u8>),
    safetensors::SafeTensorError,
>)
    ensures
        tensor is Ok <==> held_tensors(*file).contains_key(name@),
        tensor matches Ok(t) ==> (t.0@, t.1@) == held_tensors(*file)[name@],
        tensor matches Err(e) ==> forall|words: Seq<char>| #[trigger]
            error_says(e, words) ==> words == not_found(name@),
{
    let view = file.tensor(name)?;
    Ok((view.shape().to_vec(), view.data().to_vec()))
}

/// The `Display` text of a `safetensors::SafeTensorError`: words that go with the
/// error. Where the error passes on what a file system said, they are that system's.
#[verifier::external_body]
fn error_text(error: &safetensors::SafeTensorError) -> (text: String)
    ensures
        error_says(*error, text@),
{
    format!("{}", error)
}

/// The header length that a file states in its first eight bytes.
fn stated_len(file: &[u8]) -> (n: u64)
    requires
        file@.len() >= 8,
    ensures
        n == header_len(file@),
{
    file[0] as u64 + 0x100 * (file[1] as u64) + 0x1_0000 * (file[2] as u64) + 0x100_0000 * (
    file[3] as u64) + 0x1_0000_0000 * (file[4] as u64) + 0x100_0000_0000 * (file[5] as u64)
        + 0x1_0000_0000_0000 * (file[6] as u64) + 0x100_0000_0000_0000 * (file[7] as u64)
}

/// The place behind a byte.
fn next_place(at: Place, b: u8) -> (next: Place)
    ensures
        next == place_behind(at, b),
{
    match at {
        Place::Bare => if b == 34 {
            Place::Quoted
        } else {
            Place::Bare
        },
        Place::Quoted => if b == 34 {
            Place::Bare
        } else if b == 92 {
            Place::Escaped
        } else {
            Place::Quoted
        },
        Place::Escaped => Place::Quoted,
    }
}

/// A number that ends inside a run of digits begins where the run does.
proof fn lemma_number_ends(s: Seq<u8>, from: int, to: int, i: int, j: int, i2: int, j2: int)
    requires
        number_at(s, from, to, i, j),
        from <= i2 < j2 <= to,
        forall|k: int| i2 <= k < j2 ==> #[trigger] number_byte(s, from, k),
        i2 > from ==> !number_byte(s, from, i2 - 1),
        i2 < j <= j2,
    ensures
        i == i2,
{
    if i < i2 {
        assert(number_byte(s, from, i2 - 1));
    } else if i > i2 {
        assert(number_byte(s, from, i - 1));
    }
}

/// Looks in the header between `from` and `to` for a number that overflows when
/// `more` is added.
fn finds_overflow(file: &[u8], from: usize, to: usize, more: usize) -> (found: bool)
    requires
        from <= to <= file@.len(),
    ensures
        found == has_overflow(file@, from as int, to as int, more as int),
{
    let ghost s = file@;
    let ghost (lo, hi) = (from as int, to as int);
    let room: usize = usize::MAX - more;
    let mut at: Place = Place::Bare;
    // The number that is being read begins at `start`; `value` is its value so far,
    // or nothing where that is no `usize`.
    let mut start: usize = from;
    let mut value: Option<usize> = Some(0);
    let mut j: usize = from;
    while j < to
        invariant
            from <= start <= j <= to <= s.len(),
            s == file@,
            lo == from,
            hi == to,
            room == usize::MAX - more,
            at == place_of(s, lo, j as int),
            start > from ==> !number_byte(s, lo, start - 1),
            forall|k: int| start <= k < j ==> #[trigger] number_byte(s, lo, k),
            value matches Some(v) ==> v == number_value(s, start as int, j as int),
            value is None ==> number_value(s, start as int, j as int) > usize::MAX,
            forall|i: int, e: int|
                e <= start ==> !#[trigger] overflows_at(s, lo, hi, more as int, i, e),
        decreases to - j,
    {
        let b: u8 = file[j];
        let bare: bool = match at {
            Place::Bare => true,
            _ => false,
        };
        if bare && 48 <= b && b <= 57 {
            let digit: usize = (b - 48) as usize;
            value = match value {
                Some(v) => if v <= (usize::MAX - digit) / 10 {
                    Some(10 * v + digit)
                } else {
                    None
                },
                None => None,
            };
        } else {
            if j > start {
                if overflows(value, room) {
                    assert(overflows_at(s, lo, hi, more as int, start as int, j as int));
                    return true;
                }
            }
            proof {
                assert(!number_byte(s, lo, j as int));
                assert forall|i: int, e: int| e <= j + 1 implies !#[trigger] overflows_at(
                    s,
                    lo,
                    hi,
                    more as int,
                    i,
                    e,
                ) by {
                    if overflows_at(s, lo, hi, more as int, i, e) {
                        if e == j + 1 {
                            assert(number_byte(s, lo, j as int));
                        } else if e > start {
                            lemma_number_ends(s, lo, hi, i, e, start as int, j as int);
                            if e < j {
                                assert(number_byte(s, lo, e));
                            }
                        }
                    }
                }
            }
            start = j + 1;
            value = Some(0);
        }
        at = next_place(at, b);
        j = j + 1;
    }
    let found: bool = start < to && overflows(value, room);
    proof {
        if found {
            assert(overflows_at(s, lo, hi, more as int, start as int, hi));
        } else {
            assert forall|i: int, e: int| !#[trigger] overflows_at(
                s,
                lo,
                hi,
                more as int,
                i,
                e,
            ) by {
                if overflows_at(s, lo, hi, more as int, i, e) && e > start {
                    lemma_number_ends(s, lo, hi, i, e, start as int, hi);
                    if e < hi {
                        assert(number_byte(s, lo, e));
                    }
                }
            }
        }
    }
    found
}

/// Whether a number is a `usize` above the given one.
fn overflows(value: Option<usize>, room: usize) -> (over: bool)
    ensures
        over == (value matches Some(v) && v > room),
{
    match value {
        Some(v) => v > room,
        None => false,
    }
}

/// Whether a file can be handed to the parser.
pub fn parser_takes(file: &[u8]) -> (fits: bool)
    ensures
        fits == numbers_fit(file@),
{
    if file.len() < 8 {
        return true;
    }
    let n: u64 = stated_len(file);
    let room: u64 = (file.len() - 8) as u64;
    if n > room {
        return true;
    }
    let end: usize = 8 + n as usize;
    !finds_overflow(file, 8, end, end)
}

/// A tensor of rank three, as its shape and the bit patterns of its 32-bit values.
#[derive(Debug)]
pub struct Embed {
    pub shape: [usize; 3],
    pub bits: Vec<u32>,
}

/// Why an embedding could not be read.
#[derive(Debug)]
pub enum EmbedError {
    /// The file is malformed; what is wrong with it.
    Parse(String),
    /// The file holds no embedding; what was not found.
    Missing(String),
    /// The embedding is not of rank three.
    Rank,
}

impl EmbedError {
    /// The message.
    pub open spec fn wording(&self) -> Seq<char> {
        match self {
            EmbedError::Parse(text) => "bad embed file: "@ + text@,
            EmbedError::Missing(text) => "embed tensor missing: "@ + text@,
            EmbedError::Rank => "embed must be rank 3"@,
        }
    }

    /// The message.
    pub fn message(&self) -> (text: String)
        ensures
            text@ == self.wording(),
    {
        match self {
            EmbedError::Parse(text) => crate::text::joined("bad embed file: ", text.as_str()),
            EmbedError::Missing(text) => crate::text::joined(
                "embed tensor missing: ",
                text.as_str(),
            ),
            EmbedError::Rank => "embed must be rank 3".to_owned(),
        }
    }
}

/// The number that four bytes stand for, the lowest first.
pub open spec fn le_word(data: Seq<u8>, at: int) -> int {
    data[at] + 0x100 * data[at + 1] + 0x1_0000 * data[at + 2] + 0x100_0000 * data[at + 3]
}

/// Reads bytes as 32-bit words, the lowest byte first; up to three bytes at the end
/// that make no word are dropped.
pub fn le_words(data: &[u8]) -> (words: Vec<u32>)
    ensures
        words@.len() == data@.len() / 4,
        forall|i: int| 0 <= i < words@.len() ==> #[trigger] words@[i] == le_word(data@, 4 * i),
{
    let n: usize = data.len() / 4;
    let mut words: Vec<u32> = Vec::new();
    let mut i: usize = 0;
    while i < n
        invariant
            i <= n == data@.len() / 4,
            4 * n <= data@.len(),
            data@.len() <= usize::MAX,
            words@.len() == i,
            forall|k: int| 0 <= k < i ==> #[trigger] words@[k] == le_word(data@, 4 * k),
        decreases n - i,
    {
        let at: usize = 4 * i;
        words.push(
            data[at] as u32 + 0x100 * (data[at + 1] as u32) + 0x1_0000 * (data[at + 2] as u32)
                + 0x100_0000 * (data[at + 3] as u32),
        );
        i = i + 1;
    }
    words
}

/// The embedding is the given tensor.
pub open spec fn embeds(embed: Embed, shape: Seq<usize>, data: Seq<u8>) -> bool {
    &&& shape.len() == 3
    &&& embed.shape@ == shape
    &&& embed.bits@.len() == data.len() / 4
    &&& forall|i: int|
        0 <= i < embed.bits@.len() ==> #[trigger] embed.bits@[i] == le_word(data, 4 * i)
}

/// Makes an embedding of the tensor that was found, or says what was not found.
pub fn embed_from(tensor: Result<(Vec<usize>, Vec<u8>), String>) -> (embed: Result<
    Embed,
    EmbedError,
>)
    ensures
        match tensor {
            Err(text) => embed == Err::<Embed, EmbedError>(EmbedError::Missing(text)),
            Ok((shape, data)) => if shape@.len() != 3 {
                embed matches Err(EmbedError::Rank)
            } else {
                embed matches Ok(e) && embeds(e, shape@, data@)
            },
        },
{
    match tensor {
        Err(text) => Err(EmbedError::Missing(text)),
        Ok((shape, data)) => {
            if shape.len() != 3 {
                return Err(EmbedError::Rank);
            }
            let sides: [usize; 3] = [shape[0], shape[1], shape[2]];
            assert(sides@ =~= shape@);
            Ok(Embed { shape: sides, bits: le_words(data.as_slice()) })
        },
    }
}

/// The tensor that the embedding is read from.
pub open spec fn embed_key() -> Seq<char> {
    "empty_prompt_embed"@
}

/// `embed` is what reading the prompt embedding out of `file` gives.
pub open spec fn embed_read(file: Seq<u8>, embed: Result<Embed, EmbedError>) -> bool {
    match parsed_tensors(file) {
        None => embed matches Err(EmbedError::Parse(text)) && refused_in_words(file, text@),
        Some(tensors) => if !tensors.contains_key(embed_key()) {
            embed matches Err(EmbedError::Missing(text)) && text@ == not_found(embed_key())
        } else if tensors[embed_key()].0.len() != 3 {
            embed matches Err(EmbedError::Rank)
        } else {
            embed matches Ok(e) && embeds(e, tensors[embed_key()].0, tensors[embed_key()].1)
        },
    }
}

/// Reads the prompt embedding out of a tensor file.
pub fn load_embed_bytes(file: &[u8]) -> (embed: Result<Embed, EmbedError>)
    requires
        numbers_fit(file@),
    ensures
        embed_read(file@, embed),
{
    match open_tensors(file) {
        Err(error) => Err(EmbedError::Parse(error_text(&error))),
        Ok(tensors) => {
            let tensor: Result<(Vec<usize>, Vec<u8>), String> = match find_tensor(
                &tensors,
                "empty_prompt_embed",
            ) {
                Ok(found) => Ok(found),
                Err(error) => Err(error_text(&error)),
            };
            embed_from(tensor)
        },
    }
}

/// Reads the prompt embedding out of any bytes: nothing where the parser cannot be
/// given them.
pub fn try_load_embed_bytes(file: &[u8]) -> (embed: Option<Result<Embed, EmbedError>>)
    ensures
        embed is Some <==> numbers_fit(file@),
        embed matches Some(e) ==> embed_read(file@, e),
{
    if parser_takes(file) {
        Some(load_embed_bytes(file))
    } else {
        None
    }
}

/// Whether bytes begin like a tensor file: a header length of at least two that
/// fits in the rest, and an opening brace after it.
pub open spec fn file_like(bytes: Seq<u8>) -> bool {
    &&& bytes.len() > 8
    &&& 2 <= header_len(bytes) <= bytes.len() - 8
    &&& bytes[8] == 123
}

/// A cheap structural test for a tensor file: an error page, a directory listing or
/// a truncated body fails it.
pub fn looks_like_safetensors(bytes: &[u8]) -> (like: bool)
    ensures
        like == file_like(bytes@),
{
    if bytes.len() <= 8 {
        return false;
    }
    let n: u64 = stated_len(bytes);
    n >= 2 && n <= (bytes.len() - 8) as u64 && bytes[8] == 123
}

/// What a byte looks like in a description: itself if it is printable ASCII, else a
/// dot.
pub open spec fn shown(b: u8) -> char {
    if 0x20 <= b < 0x7f { b as char } else { '.' }
}

/// Printable ASCII as it stands between double quotes.
pub open spec fn escaped(b: u8) -> Seq<char> {
    if shown(b) == '"' || shown(b) == '\\' {
        seq!['\\', shown(b)]
    } else {
        seq![shown(b)]
    }
}

/// The first `n` bytes as they stand between double quotes.
pub open spec fn escaped_head(bytes: Seq<u8>, n: nat) -> Seq<char>
    decreases n,
{
    if n == 0 {
        Seq::empty()
    } else {
        escaped_head(bytes, (n - 1) as nat) + escaped(bytes[n - 1])
    }
}

/// The description of bytes by their number and their beginning.
pub open spec fn head_text(bytes: Seq<u8>) -> Seq<char> {
    let n = crate::tiling::min2(bytes.len() as int, 32) as nat;
    crate::text::decimal_digits(bytes.len()) + " bytes, starts with "@ + seq!['"'] + escaped_head(
        bytes,
        n,
    ) + seq!['"']
}

/// Describes bytes that are not what they should be: how many there are, and the
/// first 32 of them in quotes, so that an error page can be recognized.
pub fn describe_head(bytes: &[u8]) -> (text: String)
    ensures
        text@ == head_text(bytes@),
{
    let mut text: String = decimal(bytes.len() as u64);
    text.append(" bytes, starts with ");
    text.push('"');
    let n: usize = if bytes.len() < 32 { bytes.len() } else { 32 };
    let ghost lead = text@;
    let mut i: usize = 0;
    assert(text@ =~= lead + escaped_head(bytes@, 0));
    while i < n
        invariant
            i <= n <= bytes@.len(),
            text@ == lead + escaped_head(bytes@, i as nat),
        decreases n - i,
    {
        let b: u8 = bytes[i];
        let ch: char = if 0x20 <= b && b < 0x7f { b as char } else { '.' };
        if ch == '"' || ch == '\\' {
            text.push('\\');
        }
        text.push(ch);
        i = i + 1;
        assert(text@ =~= lead + escaped_head(bytes@, i as nat));
    }
    text.push('"');
    assert(text@ =~= head_text(bytes@));
    text
}

/// What loading a module's parameters came to.
pub enum Loaded {
    /// Every parameter was found.
    Complete,
    /// Some could not be applied.
    Errors,
    /// Some were not in the file; the message.
    Missing(String),
}

/// The names in quotes, separated by commas.
pub open spec fn listed(names: Seq<String>, n: nat) -> Seq<char>
    decreases n,
{
    if n == 0 {
        Seq::empty()
    } else if n == 1 {
        crate::text::debug_form(names[0]@)
    } else {
        listed(names, (n - 1) as nat) + ", "@ + crate::text::debug_form(names[n - 1]@)
    }
}

/// The message for missing parameters: how many, and the first few.
pub open spec fn missing_text(label: Seq<char>, missing: Seq<String>, most: int) -> Seq<char> {
    let n = crate::tiling::min2(missing.len() as int, most) as nat;
    label + " "@ + crate::text::decimal_digits(missing.len()) + " params, e.g. ["@ + listed(
        missing,
        n,
    ) + "]"@
}

/// Judges the outcome of loading: `errors` parameters could not be applied, and
/// `missing` were not there. Errors come first. `label` begins the message, `most`
/// is the number of names that it shows.
pub fn load_verdict(errors: usize, missing: &Vec<String>, label: &str, most: usize) -> (v: Loaded)
    ensures
        v is Errors <==> errors > 0,
        v is Complete <==> errors == 0 && missing@.len() == 0,
        v matches Loaded::Missing(text) ==> text@ == missing_text(
            label@,
            missing@,
            most as int,
        ),
{
    if errors > 0 {
        return Loaded::Errors;
    }
    if missing.len() == 0 {
        return Loaded::Complete;
    }
    let mut text: String = label.to_owned();
    text.append(" ");
    let digits: String = decimal(missing.len() as u64);
    text.append(digits.as_str());
    text.append(" params, e.g. [");
    let n: usize = if missing.len() < most { missing.len() } else { most };
    let ghost lead = text@;
    let mut i: usize = 0;
    assert(text@ =~= lead + listed(missing@, 0));
    while i < n
        invariant
            i <= n <= missing@.len(),
            text@ == lead + listed(missing@, i as nat),
        decreases n - i,
    {
        if i > 0 {
            text.append(", ");
        }
        let name: String = debug_quoted(missing[i].as_str());
        text.append(name.as_str());
        i = i + 1;
        assert(text@ =~= lead + listed(missing@, i as nat));
    }
    text.append("]");
    Loaded::Missing(text)
}

/// Text with a backslash before every dot.
pub open spec fn dots_escaped(text: Seq<char>) -> Seq<char>
    decreases text.len(),
{
    if text.len() == 0 {
        Seq::empty()
    } else if text.last() == '.' {
        dots_escaped(text.drop_last()).push('\\').push('.')
    } else {
        dots_escaped(text.drop_last()).push(text.last())
    }
}

/// The pattern that matches keys beginning with `prefix`, in which a dot stands for
/// itself.
pub fn prefix_pattern(prefix: &str) -> (pattern: String)
    ensures
        pattern@ == seq!['^'] + dots_escaped(prefix@),
{
    let mut pattern: String = String::new();
    pattern.push('^');
    let len: usize = prefix.unicode_len();
    let mut i: usize = 0;
    assert(prefix@.take(0) =~= Seq::empty());
    assert(pattern@ =~= seq!['^'] + dots_escaped(prefix@.take(0)));
    while i < len
        invariant
            i <= len == prefix@.len(),
            pattern@ == seq!['^'] + dots_escaped(prefix@.take(i as int)),
        decreases len - i,
    {
        let ch: char = prefix.get_char(i);
        assert(prefix@.take(i + 1).drop_last() =~= prefix@.take(i as int));
        if ch == '.' {
            pattern.push('\\');
        }
        pattern.push(ch);
        i = i + 1;
        assert(pattern@ =~= seq!['^'] + dots_escaped(prefix@.take(i as int)));
    }
    assert(prefix@.take(len as int) =~= prefix@);
    pattern
}

/// Key rewrites that bring a denoiser checkpoint to the module's own names: pattern
/// and replacement.
pub fn unet_remaps() -> (remaps: [(&'static str, &'static str); 2])
    ensures
        remaps@[0].0@ == r"\.ff\.net\.0\.proj\."@,
        remaps@[0].1@ == ".ff.proj_in."@,
        remaps@[1].0@ == r"\.ff\.net\.2\."@,
        remaps@[1].1@ == ".ff.proj_out."@,
{
    [(r"\.ff\.net\.0\.proj\.", ".ff.proj_in."), (r"\.ff\.net\.2\.", ".ff.proj_out.")]
}

/// Key rewrites that bring the newer attention names of an autoencoder checkpoint to
/// the older ones: pattern and replacement.
pub fn vae_remaps() -> (remaps: [(&'static str, &'static str); 4])
    ensures
        remaps@[0].0@ == r"\.to_q\."@ && remaps@[0].1@ == ".query."@,
        remaps@[1].0@ == r"\.to_k\."@ && remaps@[1].1@ == ".key."@,
        remaps@[2].0@ == r"\.to_v\."@ && remaps@[2].1@ == ".value."@,
        remaps@[3].0@ == r"\.to_out\.0\."@ && remaps@[3].1@ == ".proj_attn."@,
{
    [
        (r"\.to_q\.", ".query."),
        (r"\.to_k\.", ".key."),
        (r"\.to_v\.", ".value."),
        (r"\.to_out\.0\.", ".proj_attn."),
    ]
}

/// A file states its header's length in its first eight bytes, the lowest first: where
/// each byte is the remainder by 256 of what the bytes before it left of a number, the
/// length is that number.
pub proof fn law_header_length_is_little_endian(file: Seq<u8>, left: Seq<int>)
    requires
        file.len() >= 8,
        left.len() == 9,
        left[8] == 0,
        forall|i: int|
            #![trigger left[i]]
            0 <= i < 8 ==> file[i] == left[i] % 256 && left[i + 1] == left[i] / 256,
    ensures
        header_len(file) == left[0],
{
    assert(left[7] == file[7]);
    assert(left[6] == file[6] + 256 * left[7]);
    assert(left[5] == file[5] + 256 * left[6]);
    assert(left[4] == file[4] + 256 * left[5]);
    assert(left[3] == file[3] + 256 * left[4]);
    assert(left[2] == file[2] + 256 * left[3]);
    assert(left[1] == file[1] + 256 * left[2]);
    assert(left[0] == file[0] + 256 * left[1]);
}

/// A 32-bit word is read from four bytes in the same way.
pub proof fn law_words_are_little_endian(data: Seq<u8>, at: int, left: Seq<int>)
    requires
        left.len() == 5,
        left[4] == 0,
        forall|i: int|
            #![trigger left[i]]
            0 <= i < 4 ==> data[at + i] == left[i] % 256 && left[i + 1] == left[i] / 256,
    ensures
        le_word(data, at) == left[0],
{
    assert(left[3] == data[at + 3]);
    assert(left[2] == data[at + 2] + 256 * left[3]);
    assert(left[1] == data[at + 1] + 256 * left[2]);
    assert(left[0] == data[at + 0] + 256 * left[1]);
}

/// A file that is cut off before its header ends is not taken for a tensor file, and
/// what follows the header makes no difference.
pub proof fn law_cut_files_are_recognized(bytes: Seq<u8>, n: int, more: Seq<u8>)
    requires
        file_like(bytes),
    ensures
        8 + header_len(bytes) <= bytes.len(),
        0 <= n < 8 + header_len(bytes) ==> !file_like(bytes.take(n)),
        8 + header_len(bytes) <= n <= bytes.len() ==> file_like(bytes.take(n)),
        file_like(bytes + more),
{
    let all = bytes + more;
    assert(header_len(all) == header_len(bytes));
    assert(all[8] == bytes[8]);
    if 0 <= n <= bytes.len() {
        let part = bytes.take(n);
        if n >= 8 {
            assert(header_len(part) == header_len(bytes));
        }
        if n > 8 {
            assert(part[8] == bytes[8]);
        }
    }
}

/// A tensor file's header is a JSON object: what does not open one behind the length,
/// or leaves no room for one, is not taken for a tensor file.
pub proof fn law_headers_are_objects(bytes: Seq<u8>)
    ensures
        bytes.len() > 8 && bytes[8] != 123 ==> !file_like(bytes),
        bytes.len() <= 8 ==> !file_like(bytes),
        bytes.len() > 8 && header_len(bytes) < 2 ==> !file_like(bytes),
        bytes.len() > 8 && header_len(bytes) + 8 > bytes.len() ==> !file_like(bytes),
        bytes.len() > 8 && bytes[8] == 123 && 2 <= header_len(bytes) && header_len(bytes) + 8
            <= bytes.len() ==> file_like(bytes),
{
}

/// Text is escaped piece by piece: a dot gets a backslash before it, every other
/// character stays as it is.
pub proof fn law_dots_are_escaped_one_by_one(a: Seq<char>, b: Seq<char>, ch: char)
    ensures
        dots_escaped(a + b) == dots_escaped(a) + dots_escaped(b),
        ch == '.' ==> dots_escaped(seq![ch]) == seq!['\\', '.'],
        ch != '.' ==> dots_escaped(seq![ch]) == seq![ch],
        dots_escaped(Seq::empty()) == Seq::<char>::empty(),
    decreases b.len(),
{
    assert(seq![ch].drop_last() =~= Seq::empty());
    assert(dots_escaped(seq![ch].drop_last()) =~= Seq::empty());
    assert(dots_escaped(seq![ch]) =~= if ch == '.' {
        seq!['\\', '.']
    } else {
        seq![ch]
    });
    if b.len() == 0 {
        assert(a + b =~= a);
        assert(dots_escaped(a) + dots_escaped(b) =~= dots_escaped(a));
    } else {
        law_dots_are_escaped_one_by_one(a, b.drop_last(), ch);
        assert((a + b).drop_last() =~= a + b.drop_last());
        assert((a + b).last() == b.last());
        assert(dots_escaped(a + b) =~= dots_escaped(a) + dots_escaped(b));
    }
}

/// A byte is shown as itself where it is printable ASCII, with a backslash before it
/// where it is a quote or a backslash, and as a dot otherwise.
pub proof fn law_bytes_are_shown(b: u8)
    ensures
        32 <= b <= 126 && b != 34 && b != 92 ==> escaped(b) == seq![b as char],
        b == 34 ==> escaped(b) == seq!['\\', '"'],
        b == 92 ==> escaped(b) == seq!['\\', '\\'],
        b < 32 || b > 126 ==> escaped(b) == seq!['.'],
{
}

/// The head of bytes is shown byte by byte, and no more than the first 32 of them: bytes
/// of the same number that begin alike are described alike.
pub proof fn law_heads_are_short(a: Seq<u8>, b: Seq<u8>)
    requires
        a.len() == b.len(),
        forall|i: int| 0 <= i < a.len() && i < 32 ==> #[trigger] a[i] == b[i],
    ensures
        head_text(a) == head_text(b),
        a.len() >= 32 ==> head_text(a) == crate::text::decimal_digits(a.len())
            + " bytes, starts with "@ + seq!['"'] + escaped_head(a, 32) + seq!['"'],
        a.len() <= 32 ==> head_text(a) == crate::text::decimal_digits(a.len())
            + " bytes, starts with "@ + seq!['"'] + escaped_head(a, a.len()) + seq!['"'],
{
    let n = if a.len() < 32 {
        a.len()
    } else {
        32
    };
    lemma_heads_alike(a, b, n);
}

/// Bytes that begin alike are shown alike.
proof fn lemma_heads_alike(a: Seq<u8>, b: Seq<u8>, n: nat)
    requires
        n <= a.len(),
        n <= b.len(),
        forall|i: int| 0 <= i < n ==> #[trigger] a[i] == b[i],
    ensures
        escaped_head(a, n) == escaped_head(b, n),
    decreases n,
{
    if n > 0 {
        lemma_heads_alike(a, b, (n - 1) as nat);
        assert(a[n - 1] == b[n - 1]);
    }
}

/// A number in a header is worth what its digits are worth as text.
pub proof fn law_header_numbers_are_decimal(s: Seq<u8>, i: int, j: int)
    requires
        0 <= i <= j <= s.len(),
        forall|k: int| i <= k < j ==> digit_byte(#[trigger] s[k]),
    ensures
        number_value(s, i, j) == crate::text::digits_value(
            Seq::new((j - i) as nat, |k: int| s[i + k] as char),
        ),
    decreases j - i,
{
    let text = Seq::new((j - i) as nat, |k: int| s[i + k] as char);
    if i < j {
        law_header_numbers_are_decimal(s, i, j - 1);
        assert(text.drop_last() =~= Seq::new((j - 1 - i) as nat, |k: int| s[i + k] as char));
        assert(digit_byte(s[j - 1]));
        assert(text.last() == s[j - 1] as char);
    }
}

/// A string in a header reaches from its opening quote to the next one that has no
/// backslash before it: what stands between the two is in the string, and what follows
/// is outside again.
pub proof fn law_strings_reach_to_the_next_quote(s: Seq<u8>, from: int, i: int, j: int, k: int)
    requires
        from <= i < j,
        place_of(s, from, i) is Bare,
        s[i] == 34,
        s[j] == 34,
        forall|m: int| i < m < j ==> #[trigger] s[m] != 34 && s[m] != 92,
        i < k <= j,
    ensures
        place_of(s, from, k) is Quoted,
        k == j ==> place_of(s, from, j + 1) is Bare,
        !number_byte(s, from, k),
    decreases k - i,
{
    reveal_with_fuel(place_of, 2);
    if k > i + 1 {
        law_strings_reach_to_the_next_quote(s, from, i, j, k - 1);
        assert(s[k - 1] != 34 && s[k - 1] != 92);
    }
}

/// A character behind a backslash in a string never ends it.
pub proof fn law_escaped_characters_stay_inside(s: Seq<u8>, from: int, i: int)
    requires
        from <= i,
        place_of(s, from, i) is Quoted,
        s[i] == 92,
    ensures
        place_of(s, from, i + 1) is Escaped,
        place_of(s, from, i + 2) is Quoted,
{
    reveal_with_fuel(place_of, 3);
}

/// The message for missing parameters gives their number and lists all of them, or the
/// first `most` where there are more, with a comma between two.
pub proof fn law_missing_parameters_are_listed(
    label: Seq<char>,
    missing: Seq<String>,
    most: nat,
    n: nat,
)
    ensures
        ({
            let lead = label + " "@ + crate::text::decimal_digits(missing.len())
                + " params, e.g. ["@;
            &&& missing.len() <= most ==> missing_text(label, missing, most as int) == lead
                + listed(missing, missing.len()) + "]"@
            &&& missing.len() >= most ==> missing_text(label, missing, most as int) == lead
                + listed(missing, most) + "]"@
        }),
        listed(missing, 0) == Seq::<char>::empty(),
        listed(missing, 1) == crate::text::debug_form(missing[0]@),
        n >= 1 ==> listed(missing, n + 1) == listed(missing, n) + ", "@ + crate::text::debug_form(
            missing[n as int]@,
        ),
{
}

/// An embedding is the tensor that was found: its three sides, and its data word by word;
/// bytes at the end that make no word are dropped.
pub proof fn law_embeddings_are_read_word_by_word(
    embed: Embed,
    shape: Seq<usize>,
    data: Seq<u8>,
    words: nat,
    rest: nat,
    i: int,
)
    requires
        embeds(embed, shape, data),
        data.len() == 4 * words + rest,
        rest < 4,
        0 <= i < words,
    ensures
        embed.shape@ == shape,
        shape.len() == 3,
        embed.bits@.len() == words,
        embed.bits@[i] == data[4 * i] + 256 * data[4 * i + 1] + 65536 * data[4 * i + 2] + 16777216
            * data[4 * i + 3],
{
    let word = embed.bits@[i];
}

/// Reading an embedding gives one exactly where the file can be read and holds a tensor
/// of that name and of rank three; else the error says which of the three it was.
pub proof fn law_embeddings_fail_for_one_reason(file: Seq<u8>, embed: Result<Embed, EmbedError>)
    requires
        embed_read(file, embed),
    ensures
        ({
            let tensors = parsed_tensors(file);
            let key = "empty_prompt_embed"@;
            let held = tensors is Some && (tensors->0).contains_key(key);
            let rank = (tensors->0)[key].0.len();
            &&& embed is Ok <==> held && rank == 3
            &&& (embed matches Err(EmbedError::Parse(_))) <==> tensors is None
            &&& (embed matches Err(EmbedError::Missing(_))) <==> tensors is Some && !held
            &&& (embed matches Err(EmbedError::Rank)) <==> held && rank != 3
            &&& embed matches Ok(e) ==> e.shape@ == (tensors->0)[key].0 && e.bits@.len()
                == (tensors->0)[key].1.len() / 4
        }),
{
}

/// A number overflows exactly where it stands in the header on its own, is a machine
/// number, and is none any more with what is added; and the header overflows where one of
/// its numbers does.
pub proof fn law_overflowing_numbers_are_found(
    s: Seq<u8>,
    from: int,
    to: int,
    more: int,
    i: int,
    j: int,
)
    requires
        from <= i < j <= to,
        forall|k: int| i <= k < j ==> #[trigger] number_byte(s, from, k),
        i == from || !number_byte(s, from, i - 1),
        j == to || !number_byte(s, from, j),
        number_value(s, i, j) <= usize::MAX,
        number_value(s, i, j) + more > usize::MAX,
    ensures
        has_overflow(s, from, to, more),
{
    assert(overflows_at(s, from, to, more, i, j));
}

/// Files without a header inside them, and those whose header holds no digits outside of
/// strings, can always be handed to the parser.
pub proof fn law_plain_headers_fit(file: Seq<u8>)
    requires
        file.len() < 8 || 8 + header_len(file) > file.len() || (forall|k: int|
            8 <= k < 8 + header_len(file) ==> !#[trigger] number_byte(file, 8, k)),
    ensures
        numbers_fit(file),
{
    if file.len() >= 8 && 8 + header_len(file) <= file.len() {
        let end = 8 + header_len(file);
        if has_overflow(file, 8, end, end) {
            let (i, j) = choose|i: int, j: int| #[trigger] overflows_at(file, 8, end, end, i, j);
            assert(number_byte(file, 8, i));
        }
    }
}

} // verus!
