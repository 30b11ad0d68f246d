//! Reproducible multi-model comparison runs.

use vstd::prelude::*;
use vstd::string::*;

use crate::engine::offline::DelayCompensation;
use crate::engine::stage::PIPELINE_SAMPLE_RATE;
use crate::signal::level;
use crate::signal::level::is_finite;
use crate::text;
use crate::text::{push_decimal, same_text};

verus! {

/// The SHA-256 digest of bytes.
pub uninterp spec fn sha256_of(bytes: Seq<u8>) -> Seq<u8>;

/// `sha2::Sha256::digest` hashes bytes; the digest depends on them alone and
/// has thirty-two bytes.
#[verifier::external_body]
fn sha256(bytes: &[u8]) -> (digest: Vec<u8>)
    ensures
        digest@ == sha256_of(bytes@),
        digest@.len() == 32,
{
    <sha2::Sha256 as sha2::Digest>::digest(bytes).to_vec()
}

/// The character of one hexadecimal digit.
pub open spec fn hex_char(digit: int) -> char {
    if digit < 10 {
        (48 + digit) as char
    } else {
        (87 + digit) as char
    }
}

/// Bytes in lower-case hexadecimal.
pub open spec fn hex_text(bytes: Seq<u8>) -> Seq<char> {
    Seq::new(
        2 * bytes.len(),
        |i: int|
            hex_char(
                if i % 2 == 0 {
                    bytes[i / 2] as int / 16
                } else {
                    bytes[i / 2] as int % 16
                },
            ),
    )
}

fn hex_digit(digit: u8) -> (character: char)
    requires
        digit < 16,
    ensures
        character == hex_char(digit as int),
{
    if digit < 10 {
        (48 + digit) as char
    } else {
        (87 + digit) as char
    }
}

/// Encodes bytes in lower-case hexadecimal.
pub fn hexadecimal(bytes: &[u8]) -> (encoded: String)
    ensures
        encoded@ == hex_text(bytes@),
{
    let mut encoded = "".to_owned();
    proof {
        reveal_strlit("");
    }
    let mut i: usize = 0;
    assert(encoded@ =~= hex_text(bytes@.take(0)));
    while i < bytes.len()
        invariant
            i <= bytes@.len(),
            encoded@ == hex_text(bytes@.take(i as int)),
        decreases bytes@.len() - i,
    {
        encoded.push(hex_digit(bytes[i] / 16));
        encoded.push(hex_digit(bytes[i] % 16));
        i = i + 1;
        assert(encoded@ =~= hex_text(bytes@.take(i as int)));
    }
    assert(bytes@.take(i as int) =~= bytes@);
    encoded
}

/// The digest of a file's bytes, in hexadecimal.
pub fn sha256_hex(bytes: &[u8]) -> (encoded: String)
    ensures
        encoded@ == hex_text(sha256_of(bytes@)),
        encoded@.len() == 64,
{
    let digest: Vec<u8> = sha256(bytes);
    hexadecimal(digest.as_slice())
}

/// Hexadecimal tells bytes apart.
pub proof fn law_hexadecimal_is_injective(a: Seq<u8>, b: Seq<u8>)
    requires
        hex_text(a) == hex_text(b),
    ensures
        a == b,
{
    assert(hex_text(a).len() == 2 * a.len());
    assert(hex_text(b).len() == 2 * b.len());
    assert forall|i: int| 0 <= i < a.len() implies a[i] == b[i] by {
        assert(hex_text(a)[2 * i] == hex_char(a[i] as int / 16));
        assert(hex_text(b)[2 * i] == hex_char(b[i] as int / 16));
        assert(hex_text(a)[2 * i + 1] == hex_char(a[i] as int % 16));
        assert(hex_text(b)[2 * i + 1] == hex_char(b[i] as int % 16));
        lemma_hex_char_is_injective(a[i] as int / 16, b[i] as int / 16);
        lemma_hex_char_is_injective(a[i] as int % 16, b[i] as int % 16);
    }
    assert(a =~= b);
}

proof fn lemma_hex_char_is_injective(x: int, y: int)
    requires
        0 <= x < 16,
        0 <= y < 16,
        hex_char(x) == hex_char(y),
    ensures
        x == y,
{
}

/// Whether a character may stand in a directory name.
pub open spec fn safe(character: char) -> bool {
    ||| '0' <= character <= '9'
    ||| 'a' <= character <= 'z'
    ||| 'A' <= character <= 'Z'
    ||| character == '-'
    ||| character == '_'
    ||| character == '.'
}

/// The character, or an underscore in its place.
pub open spec fn sanitized(character: char) -> char {
    if safe(character) {
        character
    } else {
        '_'
    }
}

/// Bytes of a character in UTF-8.
pub open spec fn utf8_width(character: char) -> int {
    if (character as u32) < 0x80 {
        1
    } else if (character as u32) < 0x800 {
        2
    } else if (character as u32) < 0x1_0000 {
        3
    } else {
        4
    }
}

/// The first eight bytes of a text from character `from` on, where `bytes` of
/// them stand before it; the whole text when it is shorter or a character
/// straddles the cut.
pub open spec fn cut_at_eight(whole: Seq<char>, from: int, bytes: int) -> Seq<char>
    decreases whole.len() - from,
{
    if bytes == 8 {
        whole.take(from)
    } else if from >= whole.len() || bytes > 8 {
        whole
    } else {
        cut_at_eight(whole, from + 1, bytes + utf8_width(whole[from]))
    }
}

/// The directory name for an input: its sanitized stem and the start of its
/// digest.
pub open spec fn identifier_text(stem: Seq<char>, digest: Seq<char>) -> Seq<char> {
    stem.map_values(|character: char| sanitized(character)) + "-"@ + cut_at_eight(digest, 0, 0)
}

fn sanitize(character: char) -> (result: char)
    ensures
        result == sanitized(character),
{
    if ('0' <= character && character <= '9') || ('a' <= character && character <= 'z') || ('A'
        <= character && character <= 'Z') || character == '-' || character == '_' || character
        == '.' {
        character
    } else {
        '_'
    }
}

/// The directory name for an input: stable for one content, and safe on every
/// file system. An input without a readable stem is called `input`.
pub fn input_identifier(stem: Option<&str>, digest: &str) -> (identifier: String)
    ensures
        identifier@ == identifier_text(
            match stem {
                Some(given) => given@,
                None => "input"@,
            },
            digest@,
        ),
{
    let name: &str = match stem {
        Some(given) => given,
        None => "input",
    };
    let ghost mapped = name@.map_values(|character: char| sanitized(character));
    let mut identifier = "".to_owned();
    proof {
        reveal_strlit("");
    }
    let length: usize = name.unicode_len();
    let mut i: usize = 0;
    assert(identifier@ =~= mapped.take(0));
    while i < length
        invariant
            i <= length == name@.len(),
            mapped == name@.map_values(|character: char| sanitized(character)),
            identifier@ == mapped.take(i as int),
        decreases length - i,
    {
        identifier.push(sanitize(name.get_char(i)));
        i = i + 1;
        assert(identifier@ =~= mapped.take(i as int));
    }
    assert(identifier@ =~= mapped);
    identifier.append("-");
    let ghost before = identifier@;
    let count: usize = prefix_length(digest);
    let mut k: usize = 0;
    assert(identifier@ =~= before + digest@.take(0));
    while k < count
        invariant
            k <= count <= digest@.len(),
            identifier@ == before + digest@.take(k as int),
        decreases count - k,
    {
        identifier.push(digest.get_char(k));
        k = k + 1;
        assert(identifier@ =~= before + digest@.take(k as int));
    }
    assert(identifier@ =~= mapped + "-"@ + cut_at_eight(digest@, 0, 0));
    identifier
}

/// How many characters the start of a digest has.
fn prefix_length(digest: &str) -> (count: usize)
    ensures
        count <= digest@.len(),
        digest@.take(count as int) == cut_at_eight(digest@, 0, 0),
{
    let length: usize = digest.unicode_len();
    let mut from: usize = 0;
    let mut bytes: usize = 0;
    while from < length && bytes < 8
        invariant
            from <= length == digest@.len(),
            bytes <= 11,
            cut_at_eight(digest@, 0, 0) == cut_at_eight(digest@, from as int, bytes as int),
        decreases length - from,
    {
        let code: u32 = digest.get_char(from) as u32;
        bytes = bytes + if code < 0x80 {
            1
        } else if code < 0x800 {
            2
        } else if code < 0x1_0000 {
            3
        } else {
            4
        };
        from = from + 1;
    }
    assert(digest@.take(length as int) =~= digest@);
    if bytes == 8 {
        from
    } else {
        length
    }
}

/// Every character of an input's directory name is safe when the digest is.
pub proof fn law_identifier_is_safe(stem: Seq<char>, digest: Seq<char>, i: int)
    requires
        forall|k: int| 0 <= k < digest.len() ==> safe(#[trigger] digest[k]),
        0 <= i < identifier_text(stem, digest).len(),
    ensures
        safe(identifier_text(stem, digest)[i]),
{
    reveal_strlit("-");
    lemma_cut_is_a_prefix(digest, 0, 0);
    let mapped = stem.map_values(|character: char| sanitized(character));
    let cut = cut_at_eight(digest, 0, 0);
    if i < mapped.len() {
        assert(identifier_text(stem, digest)[i] == sanitized(stem[i]));
    } else if i > mapped.len() {
        let k = i - mapped.len() - 1;
        assert(identifier_text(stem, digest)[i] == cut[k]);
        assert(cut[k] == digest[k]);
    }
}

proof fn lemma_cut_is_a_prefix(whole: Seq<char>, from: int, bytes: int)
    requires
        0 <= from <= whole.len(),
    ensures
        cut_at_eight(whole, from, bytes).len() <= whole.len(),
        cut_at_eight(whole, from, bytes) == whole.take(
            cut_at_eight(whole, from, bytes).len() as int,
        ),
    decreases whole.len() - from,
{
    if bytes == 8 {
        assert(whole.take(from) =~= whole.take(whole.take(from).len() as int));
    } else if from >= whole.len() || bytes > 8 {
        assert(whole =~= whole.take(whole.len() as int));
    } else {
        lemma_cut_is_a_prefix(whole, from + 1, bytes + utf8_width(whole[from]));
    }
}

/// The texts a list holds.
pub open spec fn texts(list: Seq<String>) -> Seq<Seq<char>> {
    list.map_values(|item: String| item@)
}

/// The first occurrences in a list, in order.
pub open spec fn first_occurrences(list: Seq<Seq<char>>) -> Seq<Seq<char>>
    decreases list.len(),
{
    if list.len() == 0 {
        Seq::empty()
    } else {
        let before = first_occurrences(list.drop_last());
        if before.contains(list.last()) {
            before
        } else {
            before.push(list.last())
        }
    }
}

/// Whether a list holds a text.
fn holds(list: &Vec<String>, wanted: &str) -> (found: bool)
    ensures
        found == texts(list@).contains(wanted@),
{
    let mut i: usize = 0;
    while i < list.len()
        invariant
            i <= list@.len(),
            forall|k: int| 0 <= k < i ==> (#[trigger] texts(list@)[k]) != wanted@,
        decreases list@.len() - i,
    {
        if same_text(list[i].as_str(), wanted) {
            assert(texts(list@)[i as int] == wanted@);
            return true;
        }
        i = i + 1;
    }
    false
}

/// Removes repeated models, keeping the first of each in its place.
pub fn deduplicate(models: &mut Vec<String>)
    ensures
        texts(final(models)@) == first_occurrences(texts(old(models)@)),
{
    let mut kept: Vec<String> = Vec::new();
    let mut i: usize = 0;
    assert(texts(models@).take(0) =~= Seq::<Seq<char>>::empty());
    assert(texts(kept@) =~= first_occurrences(texts(models@).take(0)));
    while i < models.len()
        invariant
            i <= models@.len(),
            models@ == old(models)@,
            texts(kept@) == first_occurrences(texts(models@).take(i as int)),
        decreases models@.len() - i,
    {
        proof {
            assert(texts(models@).take(i + 1).drop_last() =~= texts(models@).take(i as int));
            assert(texts(models@).take(i + 1).last() == models@[i as int]@);
        }
        if !holds(&kept, models[i].as_str()) {
            let ghost before = kept@;
            let name: String = models[i].as_str().to_owned();
            kept.push(name);
            assert(texts(kept@) =~= texts(before).push(models@[i as int]@));
        }
        i = i + 1;
    }
    assert(texts(models@).take(i as int) =~= texts(models@));
    *models = kept;
}

/// Deduplication loses no model and leaves none twice.
pub proof fn law_first_occurrences_are_a_set(list: Seq<Seq<char>>)
    ensures
        first_occurrences(list).no_duplicates(),
        forall|item: Seq<char>|
            #[trigger] first_occurrences(list).contains(item) <==> list.contains(item),
    decreases list.len(),
{
    if list.len() > 0 {
        let rest = list.drop_last();
        law_first_occurrences_are_a_set(rest);
        let before = first_occurrences(rest);
        let all = first_occurrences(list);
        assert forall|item: Seq<char>| #[trigger] all.contains(item) <==> list.contains(item) by {
            if list.contains(item) {
                let i = choose|i: int| 0 <= i < list.len() && list[i] == item;
                if i < rest.len() {
                    assert(rest[i] == item);
                    assert(before.contains(item));
                    let k = choose|k: int| 0 <= k < before.len() && before[k] == item;
                    assert(all[k] == item);
                } else if !before.contains(list.last()) {
                    assert(all[all.len() - 1] == item);
                }
            }
            if all.contains(item) {
                let k = choose|k: int| 0 <= k < all.len() && all[k] == item;
                if k < before.len() {
                    assert(before[k] == item);
                    assert(before.contains(item));
                    let i = choose|i: int| 0 <= i < rest.len() && rest[i] == item;
                    assert(list[i] == item);
                } else {
                    assert(list[list.len() - 1] == item);
                }
            }
        }
    }
}

/// Whether a model's run succeeded.
#[derive(Debug, Clone, Copy, PartialEq, Eq, Structural)]
pub enum ModelStatus {
    /// There is an output.
    Complete,
    /// There is none.
    Failed,
}

/// What became of one model.
#[derive(Debug)]
pub struct ModelResult {
    /// The model's identifier.
    pub model: String,
    /// The model's name.
    pub display_name: String,
    /// The model's rate in hertz.
    pub native_sample_rate: u32,
    /// Whether the run succeeded.
    pub status: ModelStatus,
    /// The output file.
    pub output: Option<String>,
    /// The digest of the output file.
    pub output_sha256: Option<String>,
    /// Why there is no output.
    pub error: Option<String>,
}

impl ModelResult {
    /// Exactly one of the output and the error is there.
    pub open spec fn wf(&self) -> bool {
        match self.status {
            ModelStatus::Complete => self.output is Some && self.output_sha256 is Some
                && self.error is None,
            ModelStatus::Failed => self.output is None && self.output_sha256 is None
                && self.error is Some,
        }
    }
}

/// Writes down what became of one model: its output and digest, or why there is
/// none.
pub fn model_result(
    model: String,
    display_name: String,
    native_sample_rate: u32,
    run: Result<(String, String), String>,
) -> (result: ModelResult)
    ensures
        result.wf(),
        result.model == model,
        result.display_name == display_name,
        result.native_sample_rate == native_sample_rate,
        match run {
            Ok((output, digest)) => {
                &&& result.status == ModelStatus::Complete
                &&& result.output == Some(output)
                &&& result.output_sha256 == Some(digest)
            },
            Err(reason) => {
                &&& result.status == ModelStatus::Failed
                &&& result.error == Some(reason)
            },
        },
{
    match run {
        Ok((output, digest)) => ModelResult {
            model,
            display_name,
            native_sample_rate,
            status: ModelStatus::Complete,
            output: Some(output),
            output_sha256: Some(digest),
            error: None,
        },
        Err(reason) => ModelResult {
            model,
            display_name,
            native_sample_rate,
            status: ModelStatus::Failed,
            output: None,
            output_sha256: None,
            error: Some(reason),
        },
    }
}

/// How many models failed.
pub open spec fn failures(results: Seq<ModelResult>) -> nat
    decreases results.len(),
{
    if results.len() == 0 {
        0
    } else if results.last().status == ModelStatus::Failed {
        failures(results.drop_last()) + 1
    } else {
        failures(results.drop_last())
    }
}

/// Counts the models that failed.
pub fn count_failures(results: &[ModelResult]) -> (count: usize)
    ensures
        count == failures(results@),
        count <= results@.len(),
{
    let mut count: usize = 0;
    let mut i: usize = 0;
    while i < results.len()
        invariant
            count <= i <= results@.len(),
            count == failures(results@.take(i as int)),
        decreases results@.len() - i,
    {
        assert(results@.take(i + 1).drop_last() =~= results@.take(i as int));
        if results[i].status == ModelStatus::Failed {
            count = count + 1;
        }
        i = i + 1;
    }
    assert(results@.take(i as int) =~= results@);
    count
}

/// The record of one comparison run.
#[derive(Debug)]
pub struct ComparisonManifest {
    /// Version of the record's layout.
    pub schema_version: u32,
    /// The input file.
    pub input_path: String,
    /// The digest of the input file.
    pub input_sha256: String,
    /// Rate of all outputs in hertz.
    pub sample_rate: u32,
    /// Samples of the input at that rate.
    pub input_samples: usize,
    /// How the delay was handled.
    pub delay_compensation: &'static str,
    /// What became of each model.
    pub models: Vec<ModelResult>,
}

/// Assembles the record of one comparison run.
pub fn comparison_manifest(
    input_path: String,
    input_sha256: String,
    input_samples: usize,
    compensation: DelayCompensation,
    models: Vec<ModelResult>,
) -> (manifest: ComparisonManifest)
    ensures
        manifest.schema_version == 1,
        manifest.input_path == input_path,
        manifest.input_sha256 == input_sha256,
        manifest.sample_rate == PIPELINE_SAMPLE_RATE,
        manifest.input_samples == input_samples,
        manifest.delay_compensation == (match compensation {
            DelayCompensation::Preserve => "preserve",
            DelayCompensation::Remove => "remove",
        }),
        manifest.models == models,
{
    ComparisonManifest {
        schema_version: 1,
        input_path,
        input_sha256,
        sample_rate: PIPELINE_SAMPLE_RATE,
        input_samples,
        delay_compensation: delay_label(compensation),
        models,
    }
}

/// What a batch ends with: nothing when no run failed.
pub fn batch_verdict(failed_runs: usize) -> (result: Result<(), String>)
    ensures
        match result {
            Ok(()) => failed_runs == 0,
            Err(message) => failed_runs > 0 && message@ == text::decimal(failed_runs as nat)
                + " model run(s) failed; successful outputs and failure details were retained"@,
        },
{
    if failed_runs == 0 {
        return Ok(());
    }
    let mut message = "".to_owned();
    proof {
        reveal_strlit("");
    }
    push_decimal(&mut message, failed_runs as u64);
    assert(message@ =~= text::decimal(failed_runs as nat));
    message.append(" model run(s) failed; successful outputs and failure details were retained");
    Err(message)
}

/// How a manifest names the delay handling.
pub fn delay_label(compensation: DelayCompensation) -> (label: &'static str)
    ensures
        label == (match compensation {
            DelayCompensation::Preserve => "preserve",
            DelayCompensation::Remove => "remove",
        }),
{
    match compensation {
        DelayCompensation::Preserve => "preserve",
        DelayCompensation::Remove => "remove",
    }
}

/// Accepts a model's output unless a sample is infinite or not a number.
pub fn check_output(slug: &str, output: &[u32]) -> (result: Result<(), String>)
    ensures
        match result {
            Ok(()) => forall|i: int| 0 <= i < output@.len() ==> level::finite(#[trigger] output@[i]),
            Err(message) => {
                &&& exists|i: int| 0 <= i < output@.len() && !level::finite(#[trigger] output@[i])
                &&& message@ == "model "@ + slug@ + " produced non-finite audio"@
            },
        },
{
    let mut i: usize = 0;
    while i < output.len()
        invariant
            i <= output@.len(),
            forall|k: int| 0 <= k < i ==> level::finite(#[trigger] output@[k]),
        decreases output@.len() - i,
    {
        if !is_finite(output[i]) {
            assert(!level::finite(output@[i as int]));
            let mut message = "model ".to_owned();
            message.append(slug);
            message.append(" produced non-finite audio");
            return Err(message);
        }
        i = i + 1;
    }
    Ok(())
}

/// Accepts a speaker embedding that has the expected number of values.
pub fn check_embedding(path: &str, values: usize, expected: usize) -> (result: Result<(), String>)
    ensures
        match result {
            Ok(()) => values == expected,
            Err(message) => values != expected && message@ == "embedding "@ + path@ + " contains "@
                + text::decimal(values as nat) + " values, expected "@ + text::decimal(
                expected as nat,
            ),
        },
{
    if values == expected {
        return Ok(());
    }
    let mut message = "embedding ".to_owned();
    message.append(path);
    message.append(" contains ");
    push_decimal(&mut message, values as u64);
    message.append(" values, expected ");
    push_decimal(&mut message, expected as u64);
    Err(message)
}

/// Where a model's output stands below the run's directory.
pub fn output_path(slug: &str) -> (path: String)
    ensures
        path@ == slug@ + "/output.wav"@,
{
    let mut path = slug.to_owned();
    path.append("/output.wav");
    path
}

/// The number that a hexadecimal digit stands for.
pub open spec fn hex_value(character: char) -> int {
    if '0' <= character <= '9' {
        character as int - '0' as int
    } else {
        character as int - 'a' as int + 10
    }
}

/// Hexadecimal can be read back: each byte is two digits, the higher one first, in
/// lower case.
pub proof fn law_hexadecimal_reads_back(bytes: Seq<u8>, i: int)
    requires
        0 <= i < bytes.len(),
    ensures
        hex_text(bytes).len() == 2 * bytes.len(),
        16 * hex_value(hex_text(bytes)[2 * i]) + hex_value(hex_text(bytes)[2 * i + 1])
            == bytes[i],
        0 <= hex_value(hex_text(bytes)[2 * i]) < 16,
        0 <= hex_value(hex_text(bytes)[2 * i + 1]) < 16,
        '0' <= hex_text(bytes)[2 * i] <= '9' || 'a' <= hex_text(bytes)[2 * i] <= 'f',
        '0' <= hex_text(bytes)[2 * i + 1] <= '9' || 'a' <= hex_text(bytes)[2 * i + 1] <= 'f',
{
}

/// A directory name keeps the safe characters of the stem in their places and puts an
/// underscore for each other one, and ends with the first eight characters of the
/// digest.
pub proof fn law_identifier_keeps_what_is_safe(stem: Seq<char>, digest: Seq<char>, i: int)
    requires
        digest.len() >= 8,
        forall|k: int| 0 <= k < digest.len() ==> ((#[trigger] digest[k]) as u32) < 0x80,
        0 <= i < stem.len(),
    ensures
        identifier_text(stem, digest).len() == stem.len() + 9,
        safe(stem[i]) ==> identifier_text(stem, digest)[i] == stem[i],
        !safe(stem[i]) ==> identifier_text(stem, digest)[i] == '_',
        identifier_text(stem, digest)[stem.len() as int] == '-',
        identifier_text(stem, digest).skip(stem.len() as int + 1) == digest.take(8),
{
    reveal_strlit("-");
    lemma_ascii_cut(digest, 0);
    assert(identifier_text(stem, digest).skip(stem.len() as int + 1) =~= digest.take(8));
}

proof fn lemma_ascii_cut(digest: Seq<char>, from: int)
    requires
        digest.len() >= 8,
        forall|k: int| 0 <= k < digest.len() ==> ((#[trigger] digest[k]) as u32) < 0x80,
        0 <= from <= 8,
    ensures
        cut_at_eight(digest, from, from) == digest.take(8),
    decreases 8 - from,
{
    if from < 8 {
        assert((digest[from] as u32) < 0x80);
        lemma_ascii_cut(digest, from + 1);
    }
}

/// Deduplication keeps the order in which the models came: a list without repetition
/// stays as it is, and what follows a list never changes what was kept of it.
pub proof fn law_first_occurrences_keep_their_order(list: Seq<Seq<char>>, more: Seq<Seq<char>>)
    ensures
        list.no_duplicates() ==> first_occurrences(list) == list,
        first_occurrences(list).len() <= first_occurrences(list + more).len(),
        first_occurrences(list + more).take(first_occurrences(list).len() as int)
            == first_occurrences(list),
    decreases list.len() + more.len(),
{
    if more.len() > 0 {
        let fewer = more.drop_last();
        law_first_occurrences_keep_their_order(list, fewer);
        assert((list + more).drop_last() =~= list + fewer);
        let kept = first_occurrences(list);
        assert(first_occurrences(list + more).take(kept.len() as int) =~= first_occurrences(
            list + fewer,
        ).take(kept.len() as int));
    } else {
        assert(list + more =~= list);
        assert(first_occurrences(list).take(first_occurrences(list).len() as int)
            =~= first_occurrences(list));
        if list.len() > 0 && list.no_duplicates() {
            let shorter = list.drop_last();
            assert(shorter.no_duplicates());
            law_first_occurrences_keep_their_order(shorter, Seq::empty());
            assert(!shorter.contains(list.last())) by {
                if shorter.contains(list.last()) {
                    let k = choose|k: int| 0 <= k < shorter.len() && shorter[k] == list.last();
                    assert(list[k] == list[list.len() - 1]);
                }
            }
            assert(first_occurrences(list) =~= list);
        } else if list.len() == 0 {
            assert(first_occurrences(list) =~= list);
        }
    }
}

/// Failures are counted one by one: none exactly where every run is complete, and two
/// lists have as many together as one and the other.
pub proof fn law_failures_add_up(first: Seq<ModelResult>, second: Seq<ModelResult>)
    ensures
        failures(first + second) == failures(first) + failures(second),
        failures(second) == 0 <==> forall|i: int|
            0 <= i < second.len() ==> (#[trigger] second[i]).status == ModelStatus::Complete,
        failures(second) <= second.len(),
    decreases second.len(),
{
    if second.len() > 0 {
        let shorter = second.drop_last();
        law_failures_add_up(first, shorter);
        assert((first + second).drop_last() =~= first + shorter);
        let last = second.len() - 1;
        assert(second[last] == second.last());
        if failures(second) == 0 {
            assert forall|i: int| 0 <= i < second.len() implies (#[trigger] second[i]).status
                == ModelStatus::Complete by {
                if i < last {
                    assert(shorter[i] == second[i]);
                }
            }
        }
        if forall|i: int|
            0 <= i < second.len() ==> (#[trigger] second[i]).status == ModelStatus::Complete {
            assert forall|i: int| 0 <= i < shorter.len() implies (#[trigger] shorter[i]).status
                == ModelStatus::Complete by {
                assert(second[i].status == ModelStatus::Complete);
            }
            assert(second[last].status == ModelStatus::Complete);
        }
    } else {
        assert(first + second =~= first);
    }
}

} // verus!
