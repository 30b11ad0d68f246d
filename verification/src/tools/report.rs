//! What the evaluation writes down: directory names, warnings, the key of the
//! blind listening set, and the metric tables.
//!
//! Numbers that come out of floating-point work arrive here as text.

use vstd::prelude::*;
use vstd::string::*;

use super::eval;
use super::eval::blind_order;
use crate::signal::level;
use crate::signal::level::{block_peak, FULL_SCALE};
use crate::text;
use crate::text::{push_decimal, push_left, push_right};

verus! {

/// A signal-to-interference ratio: its double-precision bit pattern, the whole
/// decibels it rounds to, and the text it was given as.
#[derive(Debug)]
pub struct SirRatio {
    /// Bit pattern.
    pub bits: u64,
    /// Rounded to whole decibels.
    pub whole_db: i64,
    /// As given.
    pub shown: String,
}

/// Bit pattern of double-precision infinity.
pub const INFINITE_RATIO: u64 = 0x7ff0_0000_0000_0000;

/// First double-precision bit pattern with the sign bit set.
pub const RATIO_SIGN_BIT: u64 = 0x8000_0000_0000_0000;

/// Whether a ratio is neither infinite nor "not a number".
pub open spec fn finite_ratio(bits: u64) -> bool {
    (if bits >= RATIO_SIGN_BIT {
        bits - RATIO_SIGN_BIT
    } else {
        bits as int
    }) < INFINITE_RATIO
}

fn is_finite_ratio(bits: u64) -> (finite: bool)
    ensures
        finite == finite_ratio(bits),
{
    let magnitude: u64 = if bits >= RATIO_SIGN_BIT { bits - RATIO_SIGN_BIT } else { bits };
    magnitude < INFINITE_RATIO
}

/// The absolute value.
pub open spec fn absolute(number: int) -> nat {
    if number < 0 {
        (-number) as nat
    } else {
        number as nat
    }
}

/// Directory name for one ratio: signed, with at least two digits.
pub open spec fn sir_name(whole_db: int) -> Seq<char> {
    (if whole_db < 0 {
        "sir-"@
    } else {
        "sir+"@
    }) + (if absolute(whole_db) < 10 {
        "0"@
    } else {
        ""@
    }) + text::decimal(absolute(whole_db))
}

/// Directory name for one ratio, such as `sir+06` or `sir-06`.
pub fn sir_dir_name(whole_db: i64) -> (name: String)
    ensures
        name@ == sir_name(whole_db as int),
{
    let size: u64 = if whole_db < 0 { (-(whole_db as i128)) as u64 } else { whole_db as u64 };
    let mut name = if whole_db < 0 { "sir-".to_owned() } else { "sir+".to_owned() };
    if size < 10 {
        name.append("0");
    } else {
        name.append("");
    }
    push_decimal(&mut name, size);
    name
}

/// Ratios that round to different decibels get different directories.
pub proof fn law_directory_names_are_distinct(a: int, b: int)
    requires
        sir_name(a) == sir_name(b),
    ensures
        a == b,
{
    reveal_strlit("sir-");
    reveal_strlit("sir+");
    reveal_strlit("0");
    reveal_strlit("");
    assert(sir_name(a)[3] == (if a < 0 {
        '-'
    } else {
        '+'
    }));
    assert(sir_name(b)[3] == (if b < 0 {
        '-'
    } else {
        '+'
    }));
    let x = absolute(a);
    let y = absolute(b);
    let pad_a = if x < 10 {
        5int
    } else {
        4
    };
    let pad_b = if y < 10 {
        5int
    } else {
        4
    };
    assert(sir_name(a).skip(pad_a) =~= text::decimal(x));
    assert(sir_name(b).skip(pad_b) =~= text::decimal(y));
    lemma_leading_digit(x);
    lemma_leading_digit(y);
    if x < 10 && y >= 10 {
        assert(sir_name(a)[4] == '0');
        assert(sir_name(b)[4] == text::decimal(y)[0]);
    }
    if x >= 10 && y < 10 {
        assert(sir_name(b)[4] == '0');
        assert(sir_name(a)[4] == text::decimal(x)[0]);
    }
    text::law_decimal_is_injective(x, y);
}

/// A number of two digits or more does not begin with a zero.
proof fn lemma_leading_digit(number: nat)
    ensures
        text::decimal(number).len() > 0,
        number > 0 ==> text::decimal(number)[0] != '0',
    decreases number,
{
    if number >= 10 {
        lemma_leading_digit(number / 10);
    }
}

/// Why a list of ratios is rejected.
#[derive(Debug, Clone, Copy, PartialEq, Eq, Structural)]
pub enum SirError {
    /// The list is empty.
    Empty,
    /// The ratio at this place is not a finite number.
    NotFinite(usize),
    /// The ratio at the second place shares its directory with that at the
    /// first.
    Collision(usize, usize),
}

/// Whether the ratio at place `i` is finite and shares its directory with none
/// before it.
pub open spec fn acceptable(sirs: Seq<SirRatio>, i: int) -> bool {
    &&& finite_ratio(sirs[i].bits)
    &&& forall|k: int| 0 <= k < i ==> #[trigger] sirs[k].whole_db != sirs[i].whole_db
}

/// Rejects lists whose directory names collide (they round to whole decibels,
/// so two ratios could overwrite each other's files) and values that are not
/// finite. The first offender is reported, with the first ratio it collides
/// with.
pub fn validate_sirs(sirs: &[SirRatio]) -> (result: Result<(), SirError>)
    ensures
        match result {
            Ok(()) => sirs@.len() > 0 && forall|i: int|
                0 <= i < sirs@.len() ==> #[trigger] acceptable(sirs@, i),
            Err(SirError::Empty) => sirs@.len() == 0,
            Err(SirError::NotFinite(i)) => {
                &&& i < sirs@.len()
                &&& !finite_ratio(sirs@[i as int].bits)
                &&& forall|k: int| 0 <= k < i ==> #[trigger] acceptable(sirs@, k)
            },
            Err(SirError::Collision(other, i)) => {
                &&& other < i < sirs@.len()
                &&& finite_ratio(sirs@[i as int].bits)
                &&& sirs@[other as int].whole_db == sirs@[i as int].whole_db
                &&& forall|k: int|
                    0 <= k < other ==> #[trigger] sirs@[k].whole_db != sirs@[i as int].whole_db
                &&& forall|k: int| 0 <= k < i ==> #[trigger] acceptable(sirs@, k)
            },
        },
{
    if sirs.len() == 0 {
        return Err(SirError::Empty);
    }
    let mut i: usize = 0;
    while i < sirs.len()
        invariant
            i <= sirs@.len(),
            sirs@.len() > 0,
            forall|k: int| 0 <= k < i ==> #[trigger] acceptable(sirs@, k),
        decreases sirs@.len() - i,
    {
        if !is_finite_ratio(sirs[i].bits) {
            return Err(SirError::NotFinite(i));
        }
        let mut other: usize = 0;
        while other < i
            invariant
                other <= i < sirs@.len(),
                finite_ratio(sirs@[i as int].bits),
                forall|k: int| 0 <= k < i ==> #[trigger] acceptable(sirs@, k),
                forall|k: int|
                    0 <= k < other ==> #[trigger] sirs@[k].whole_db != sirs@[i as int].whole_db,
            decreases i - other,
        {
            if sirs[other].whole_db == sirs[i].whole_db {
                return Err(SirError::Collision(other, i));
            }
            other = other + 1;
        }
        assert(acceptable(sirs@, i as int));
        i = i + 1;
    }
    Ok(())
}

/// The message for a rejected list.
pub open spec fn sir_error_text(sirs: Seq<SirRatio>, error: SirError) -> Seq<char> {
    match error {
        SirError::Empty => "--sir needs at least one value"@,
        SirError::NotFinite(i) => "--sir "@ + sirs[i as int].shown@
            + " is not a finite number of dB"@,
        SirError::Collision(other, i) => "--sir "@ + sirs[other as int].shown@ + " and "@
            + sirs[i as int].shown@ + " would both be written to "@ + sir_name(
            sirs[i as int].whole_db as int,
        ) + "/ (directory names are whole dB); pass values at least 1 dB apart"@,
    }
}

/// Describes why a list was rejected.
pub fn sir_error_message(sirs: &[SirRatio], error: SirError) -> (message: String)
    requires
        match error {
            SirError::Empty => true,
            SirError::NotFinite(i) => i < sirs@.len(),
            SirError::Collision(other, i) => other < sirs@.len() && i < sirs@.len(),
        },
    ensures
        message@ == sir_error_text(sirs@, error),
{
    match error {
        SirError::Empty => "--sir needs at least one value".to_owned(),
        SirError::NotFinite(i) => {
            let mut message = "--sir ".to_owned();
            message.append(sirs[i].shown.as_str());
            message.append(" is not a finite number of dB");
            message
        },
        SirError::Collision(other, i) => {
            let mut message = "--sir ".to_owned();
            message.append(sirs[other].shown.as_str());
            message.append(" and ");
            message.append(sirs[i].shown.as_str());
            message.append(" would both be written to ");
            let name: String = sir_dir_name(sirs[i].whole_db);
            message.append(name.as_str());
            message.append("/ (directory names are whole dB); pass values at least 1 dB apart");
            message
        },
    }
}

/// The warning for audio that exceeds full scale.
pub open spec fn clipping_text(label: Seq<char>, peak_dbfs: Seq<char>) -> Seq<char> {
    label + ": WARNING — peak "@ + peak_dbfs
        + " dBFS exceeds full scale; the written WAVs are clipped (the metrics are not). Lower --target-level-dbfs or the SIR range before listening"@
}

/// A warning line when samples exceed full scale: what is written is clamped,
/// while the metrics see the unclamped samples. The peak in decibels comes as
/// text.
pub fn clipping_warning(label: &str, samples: &[u32], peak_dbfs: &str) -> (warning: Option<String>)
    ensures
        match warning {
            Some(line) => level::peak_of(samples@) > FULL_SCALE && line@ == clipping_text(
                label@,
                peak_dbfs@,
            ),
            None => level::peak_of(samples@) <= FULL_SCALE,
        },
{
    if block_peak(samples) <= FULL_SCALE {
        return None;
    }
    let mut line = label.to_owned();
    line.append(": WARNING — peak ");
    line.append(peak_dbfs);
    line.append(
        " dBFS exceeds full scale; the written WAVs are clipped (the metrics are not). Lower --target-level-dbfs or the SIR range before listening",
    );
    Some(line)
}

/// One file of a blind listening set.
#[derive(Debug)]
pub struct BlindEntry {
    /// File name without extension.
    pub name: String,
    /// Which model it holds.
    pub model: usize,
    /// The line of the key that gives it away.
    pub key_line: String,
}

/// The name of the file at a place: a letter, and a number once the letters
/// are used up.
pub open spec fn letter_name(index: int) -> Seq<char> {
    if index >= 26 {
        seq![(65 + index % 26) as char] + text::decimal((index / 26) as nat)
    } else {
        seq![(65 + index % 26) as char]
    }
}

/// The line of the key for a file.
pub open spec fn key_text(sir_dir: Seq<char>, name: Seq<char>, model: Seq<char>) -> Seq<char> {
    sir_dir + "/blind/"@ + name + ".wav = "@ + model
}

fn blind_name(index: usize) -> (name: String)
    ensures
        name@ == letter_name(index as int),
{
    let mut name = "".to_owned();
    proof {
        reveal_strlit("");
    }
    let letter: u8 = (index % 26) as u8;
    name.push((65 + letter) as char);
    assert(name@ =~= seq![(65 + index % 26) as char]);
    if index >= 26 {
        push_decimal(&mut name, (index / 26) as u64);
    }
    name
}

/// Lays a blind listening set out: every model's output under a letter chosen
/// by the seed, with the line that gives it away.
pub fn blind_set(sir_dir: &str, model_ids: &Vec<String>, seed: u64) -> (entries: Vec<BlindEntry>)
    ensures
        entries@.len() == model_ids@.len(),
        forall|i: int|
            0 <= i < entries@.len() ==> {
                &&& (#[trigger] entries@[i]).model == eval::blind(model_ids@.len(), seed)[i]
                &&& entries@[i].model < model_ids@.len()
                &&& entries@[i].name@ == letter_name(i)
                &&& entries@[i].key_line@ == key_text(
                    sir_dir@,
                    letter_name(i),
                    model_ids@[entries@[i].model as int]@,
                )
            },
{
    let order: Vec<usize> = blind_order(model_ids.len(), seed);
    proof {
        eval::law_blind_order_is_a_permutation(model_ids@.len(), seed);
    }
    let mut entries: Vec<BlindEntry> = Vec::new();
    while entries.len() < order.len()
        invariant
            order@ == eval::blind(model_ids@.len(), seed),
            order@.len() == model_ids@.len(),
            eval::permutes(order@),
            entries@.len() <= order@.len(),
            forall|i: int|
                0 <= i < entries@.len() ==> {
                    &&& (#[trigger] entries@[i]).model == eval::blind(model_ids@.len(), seed)[i]
                    &&& entries@[i].model < model_ids@.len()
                    &&& entries@[i].name@ == letter_name(i)
                    &&& entries@[i].key_line@ == key_text(
                        sir_dir@,
                        letter_name(i),
                        model_ids@[entries@[i].model as int]@,
                    )
                },
        decreases order@.len() - entries@.len(),
    {
        let index: usize = entries.len();
        let model: usize = order[index];
        let name: String = blind_name(index);
        let mut key_line = sir_dir.to_owned();
        key_line.append("/blind/");
        key_line.append(name.as_str());
        key_line.append(".wav = ");
        key_line.append(model_ids[model].as_str());
        entries.push(BlindEntry { name, model, key_line });
    }
    entries
}

/// No two files of a listening set share a name.
pub proof fn law_blind_names_are_distinct(i: int, j: int)
    requires
        0 <= i < j,
    ensures
        letter_name(i) != letter_name(j),
{
    if letter_name(i) == letter_name(j) {
        assert(letter_name(i)[0] == letter_name(j)[0]);
        assert((65 + i % 26) as char == (65 + j % 26) as char);
        assert(i % 26 == j % 26);
        if i >= 26 {
            assert(letter_name(i).skip(1) =~= text::decimal((i / 26) as nat));
            assert(letter_name(j).skip(1) =~= text::decimal((j / 26) as nat));
            text::law_decimal_is_injective((i / 26) as nat, (j / 26) as nat);
        } else if j >= 26 {
            assert(letter_name(i).len() == 1);
            lemma_leading_digit((j / 26) as nat);
        }
    }
}

/// One row of the metric table, as text.
#[derive(Debug)]
pub struct MetricRow {
    /// The model.
    pub model_id: String,
    /// Signal-to-interference ratio.
    pub sir_db: String,
    /// High band of the voice that was kept.
    pub high_band_retention: String,
    /// Level of the voice.
    pub own_voice_level: String,
    /// Fidelity of the voice alone.
    pub own_voice_si_sdr: String,
    /// Fidelity of the voice while the other talks.
    pub both_si_sdr: String,
    /// What is left of the interferer.
    pub interferer_residual: String,
    /// What is left of it in the high band.
    pub interferer_residual_high: String,
    /// Latency.
    pub latency_ms: String,
    /// Median block time.
    pub block_p50_ms: String,
    /// High block time.
    pub block_p99_ms: String,
}

/// One line of the comma-separated table.
pub open spec fn csv_line(row: MetricRow) -> Seq<char> {
    row.model_id@ + ","@ + row.sir_db@ + ","@ + row.high_band_retention@ + ","@
        + row.own_voice_level@ + ","@ + row.own_voice_si_sdr@ + ","@ + row.both_si_sdr@ + ","@
        + row.interferer_residual@ + ","@ + row.interferer_residual_high@ + ","@ + row.latency_ms@
        + ","@ + row.block_p50_ms@ + ","@ + row.block_p99_ms@ + "\n"@
}

/// The lines of the comma-separated table.
pub open spec fn csv_lines(rows: Seq<MetricRow>) -> Seq<char>
    decreases rows.len(),
{
    if rows.len() == 0 {
        Seq::empty()
    } else {
        csv_lines(rows.drop_last()) + csv_line(rows.last())
    }
}

/// The comma-separated table: a header and one line per row.
pub open spec fn csv_text(rows: Seq<MetricRow>) -> Seq<char> {
    "model,sir_db,high_band_retention_db,own_voice_level_db,own_voice_si_sdr_db,both_si_sdr_db,interferer_residual_db,interferer_residual_high_db,latency_ms,block_p50_ms,block_p99_ms\n"@
        + csv_lines(rows)
}

/// Renders the comma-separated table.
pub fn render_csv(rows: &[MetricRow]) -> (csv: String)
    ensures
        csv@ == csv_text(rows@),
{
    let mut csv =
        "model,sir_db,high_band_retention_db,own_voice_level_db,own_voice_si_sdr_db,both_si_sdr_db,interferer_residual_db,interferer_residual_high_db,latency_ms,block_p50_ms,block_p99_ms\n".to_owned();
    let ghost header = csv@;
    let mut i: usize = 0;
    assert(csv@ =~= header + csv_lines(rows@.take(0)));
    while i < rows.len()
        invariant
            i <= rows@.len(),
            csv@ == header + csv_lines(rows@.take(i as int)),
        decreases rows@.len() - i,
    {
        let ghost before = csv@;
        let row = &rows[i];
        csv.append(row.model_id.as_str());
        csv.append(",");
        csv.append(row.sir_db.as_str());
        csv.append(",");
        csv.append(row.high_band_retention.as_str());
        csv.append(",");
        csv.append(row.own_voice_level.as_str());
        csv.append(",");
        csv.append(row.own_voice_si_sdr.as_str());
        csv.append(",");
        csv.append(row.both_si_sdr.as_str());
        csv.append(",");
        csv.append(row.interferer_residual.as_str());
        csv.append(",");
        csv.append(row.interferer_residual_high.as_str());
        csv.append(",");
        csv.append(row.latency_ms.as_str());
        csv.append(",");
        csv.append(row.block_p50_ms.as_str());
        csv.append(",");
        csv.append(row.block_p99_ms.as_str());
        csv.append("\n");
        proof {
            assert(csv@ =~= before + csv_line(rows@[i as int]));
            assert(rows@.take(i + 1).drop_last() =~= rows@.take(i as int));
            assert(csv@ =~= header + csv_lines(rows@.take(i + 1)));
        }
        i = i + 1;
    }
    assert(rows@.take(i as int) =~= rows@);
    csv
}

/// One line of the printed table.
pub open spec fn table_line(row: MetricRow) -> Seq<char> {
    text::left_aligned(row.model_id@, 18) + " "@ + text::right_aligned(row.sir_db@, 5) + " "@
        + text::right_aligned(row.high_band_retention@, 6) + " dB "@ + text::right_aligned(
        row.own_voice_level@,
        5,
    ) + " dB "@ + text::right_aligned(row.own_voice_si_sdr@, 7) + " dB "@ + text::right_aligned(
        row.both_si_sdr@,
        8,
    ) + " dB "@ + text::right_aligned(row.interferer_residual@, 6) + " dB "@ + text::right_aligned(
        row.interferer_residual_high@,
        6,
    ) + " dB "@ + text::right_aligned(row.latency_ms@, 5) + " ms "@ + text::right_aligned(
        row.block_p50_ms@,
        5,
    ) + "/"@ + text::left_aligned(row.block_p99_ms@, 5)
}

fn render_row(row: &MetricRow) -> (line: String)
    ensures
        line@ == table_line(*row),
{
    let mut line = "".to_owned();
    proof {
        reveal_strlit("");
    }
    push_left(&mut line, row.model_id.as_str(), 18);
    line.append(" ");
    push_right(&mut line, row.sir_db.as_str(), 5);
    line.append(" ");
    push_right(&mut line, row.high_band_retention.as_str(), 6);
    line.append(" dB ");
    push_right(&mut line, row.own_voice_level.as_str(), 5);
    line.append(" dB ");
    push_right(&mut line, row.own_voice_si_sdr.as_str(), 7);
    line.append(" dB ");
    push_right(&mut line, row.both_si_sdr.as_str(), 8);
    line.append(" dB ");
    push_right(&mut line, row.interferer_residual.as_str(), 6);
    line.append(" dB ");
    push_right(&mut line, row.interferer_residual_high.as_str(), 6);
    line.append(" dB ");
    push_right(&mut line, row.latency_ms.as_str(), 5);
    line.append(" ms ");
    push_right(&mut line, row.block_p50_ms.as_str(), 5);
    line.append("/");
    push_left(&mut line, row.block_p99_ms.as_str(), 5);
    assert(line@ =~= table_line(*row));
    line
}

/// The metric table: an empty line, a legend, a header, and a line per row.
pub fn render_table(rows: &[MetricRow]) -> (lines: Vec<String>)
    ensures
        lines@.len() == rows@.len() + 3,
        lines@[0]@ == ""@,
        lines@[1]@
            == "columns: HF keep = high band (≥ 8 kHz) of your voice kept, you only (0 dB = all); level = your voice's level vs. the clean recording, you only (0 dB = same loudness); SI-SDR you / both = own-voice fidelity alone / while the other talks (higher = better); resid all / HF = interferer left when only the other talks, full band / ≥ 8 kHz (more negative = better); p50 / p99 = 10 ms block processing time"@,
        lines@[2]@
            == "model                SIR  HF keep    level SI-SDR you SI-SDR both resid all  resid HF  latency  p50/p99 ms"@,
        forall|i: int|
            0 <= i < rows@.len() ==> (#[trigger] lines@[i + 3])@ == table_line(rows@[i]),
{
    let mut lines: Vec<String> = Vec::new();
    lines.push("".to_owned());
    lines.push(
        "columns: HF keep = high band (≥ 8 kHz) of your voice kept, you only (0 dB = all); level = your voice's level vs. the clean recording, you only (0 dB = same loudness); SI-SDR you / both = own-voice fidelity alone / while the other talks (higher = better); resid all / HF = interferer left when only the other talks, full band / ≥ 8 kHz (more negative = better); p50 / p99 = 10 ms block processing time".to_owned(),
    );
    lines.push(
        "model                SIR  HF keep    level SI-SDR you SI-SDR both resid all  resid HF  latency  p50/p99 ms".to_owned(),
    );
    let ghost head = lines@;
    let mut i: usize = 0;
    while i < rows.len()
        invariant
            i <= rows@.len(),
            head.len() == 3,
            lines@.len() == i + 3,
            lines@.take(3) == head,
            forall|k: int| 0 <= k < i ==> (#[trigger] lines@[k + 3])@ == table_line(rows@[k]),
        decreases rows@.len() - i,
    {
        let ghost before = lines@;
        lines.push(render_row(&rows[i]));
        proof {
            assert(lines@.take(3) =~= before.take(3));
            assert forall|k: int| 0 <= k < i + 1 implies (#[trigger] lines@[k + 3])@
                == table_line(rows@[k]) by {
                if k < i {
                    assert(lines@[k + 3] == before[k + 3]);
                }
            }
        }
        i = i + 1;
    }
    proof {
        assert(lines@[0] == lines@.take(3)[0]);
        assert(lines@[1] == lines@.take(3)[1]);
        assert(lines@[2] == lines@.take(3)[2]);
    }
    lines
}

/// The texts of a row, from the first column to the last.
pub open spec fn row_texts(row: MetricRow) -> Seq<Seq<char>> {
    seq![
        row.model_id@,
        row.sir_db@,
        row.high_band_retention@,
        row.own_voice_level@,
        row.own_voice_si_sdr@,
        row.both_si_sdr@,
        row.interferer_residual@,
        row.interferer_residual_high@,
        row.latency_ms@,
        row.block_p50_ms@,
        row.block_p99_ms@,
    ]
}

/// Whether no text of a row holds what separates fields or lines.
pub open spec fn plain(row: MetricRow) -> bool {
    forall|k: int|
        0 <= k < row_texts(row).len() ==> text::free_of(#[trigger] row_texts(row)[k], ',')
            && text::free_of(row_texts(row)[k], '\n')
}

/// The comma-separated table can be read back: cut into lines and those at their
/// commas, it gives the names of the columns first, and then for every row, under
/// each name, the metric of that name.
pub proof fn law_csv_columns_hold_their_metrics(rows: Seq<MetricRow>, i: int)
    requires
        0 <= i < rows.len(),
        forall|k: int| 0 <= k < rows.len() ==> plain(#[trigger] rows[k]),
    ensures
        ({
            let lines = text::split(csv_text(rows), '\n');
            let names = text::split(lines[0], ',');
            let fields = text::split(lines[i + 1], ',');
            &&& lines.len() == rows.len() + 2
            &&& lines.last() == Seq::<char>::empty()
            &&& names.len() == 11
            &&& fields.len() == 11
            &&& names[0] == "model"@ && fields[0] == rows[i].model_id@
            &&& names[1] == "sir_db"@ && fields[1] == rows[i].sir_db@
            &&& names[2] == "high_band_retention_db"@ && fields[2] == rows[i].high_band_retention@
            &&& names[3] == "own_voice_level_db"@ && fields[3] == rows[i].own_voice_level@
            &&& names[4] == "own_voice_si_sdr_db"@ && fields[4] == rows[i].own_voice_si_sdr@
            &&& names[5] == "both_si_sdr_db"@ && fields[5] == rows[i].both_si_sdr@
            &&& names[6] == "interferer_residual_db"@ && fields[6] == rows[i].interferer_residual@
            &&& names[7] == "interferer_residual_high_db"@ && fields[7] == rows[i].interferer_residual_high@
            &&& names[8] == "latency_ms"@ && fields[8] == rows[i].latency_ms@
            &&& names[9] == "block_p50_ms"@ && fields[9] == rows[i].block_p50_ms@
            &&& names[10] == "block_p99_ms"@ && fields[10] == rows[i].block_p99_ms@
        }),
{
    lemma_csv_lines(rows);
    lemma_header_splits();
    let row = rows[i];
    assert(plain(rows[i]));
    lemma_csv_body(row);
    text::law_split_undoes_joining(row_texts(row), ',');
}

/// The header without its line end.
spec fn csv_names() -> Seq<Seq<char>> {
    seq![
        "model"@,
        "sir_db"@,
        "high_band_retention_db"@,
        "own_voice_level_db"@,
        "own_voice_si_sdr_db"@,
        "both_si_sdr_db"@,
        "interferer_residual_db"@,
        "interferer_residual_high_db"@,
        "latency_ms"@,
        "block_p50_ms"@,
        "block_p99_ms"@,
    ]
}

/// A line without its end.
spec fn csv_body(row: MetricRow) -> Seq<char> {
    text::joined_by(row_texts(row), ',')
}

/// Joining eleven texts, written out.
proof fn lemma_eleven_joined(parts: Seq<Seq<char>>)
    requires
        parts.len() == 11,
    ensures
        text::joined_by(parts, ',') == parts[0] + ","@ + parts[1] + ","@ + parts[2] + ","@ + parts[3]
            + ","@ + parts[4] + ","@ + parts[5] + ","@ + parts[6] + ","@ + parts[7] + ","@
            + parts[8] + ","@ + parts[9] + ","@ + parts[10],
{
    reveal_strlit(",");
    reveal_with_fuel(text::joined_by, 12);
    lemma_push_is_comma(parts[0]);
    lemma_joined_step(parts, 2);
    lemma_joined_step(parts, 3);
    lemma_joined_step(parts, 4);
    lemma_joined_step(parts, 5);
    lemma_joined_step(parts, 6);
    lemma_joined_step(parts, 7);
    lemma_joined_step(parts, 8);
    lemma_joined_step(parts, 9);
    lemma_joined_step(parts, 10);
    lemma_joined_step(parts, 11);
    assert(parts.take(1) =~= seq![parts[0]]);
    assert(text::joined_by(parts.take(1), ',') == parts[0]);
    assert(parts.take(11) =~= parts);
}

proof fn lemma_joined_step(parts: Seq<Seq<char>>, n: int)
    requires
        2 <= n <= parts.len(),
    ensures
        text::joined_by(parts.take(n), ',') == text::joined_by(parts.take(n - 1), ',') + ","@
            + parts[n - 1],
{
    assert(parts.take(n).drop_last() =~= parts.take(n - 1));
    assert(parts.take(n).last() == parts[n - 1]);
    lemma_push_is_comma(text::joined_by(parts.take(n - 1), ','));
}

proof fn lemma_push_is_comma(start: Seq<char>)
    ensures
        start.push(',') == start + ","@,
{
    reveal_strlit(",");
    assert(start.push(',') =~= start + ","@);
}

proof fn lemma_csv_body(row: MetricRow)
    requires
        plain(row),
    ensures
        csv_line(row) == csv_body(row).push('\n'),
        text::free_of(csv_body(row), '\n'),
        forall|k: int|
            0 <= k < row_texts(row).len() ==> text::free_of(#[trigger] row_texts(row)[k], ','),
{
    lemma_eleven_joined(row_texts(row));
    reveal_strlit("\n");
    assert(csv_body(row).push('\n') =~= csv_body(row) + "\n"@);
    lemma_joined_is_free(row_texts(row), '\n');
}

/// Joining texts with commas brings no other mark in.
proof fn lemma_joined_is_free(parts: Seq<Seq<char>>, mark: char)
    requires
        mark != ',',
        forall|k: int| 0 <= k < parts.len() ==> text::free_of(#[trigger] parts[k], mark),
    ensures
        text::free_of(text::joined_by(parts, ','), mark),
    decreases parts.len(),
{
    if parts.len() == 1 {
        assert(text::free_of(parts[0], mark));
    } else if parts.len() > 1 {
        let rest = parts.drop_last();
        assert forall|k: int| 0 <= k < rest.len() implies text::free_of(
            #[trigger] rest[k],
            mark,
        ) by {
            assert(text::free_of(parts[k], mark));
        }
        lemma_joined_is_free(rest, mark);
        let whole = text::joined_by(parts, ',');
        let start = text::joined_by(rest, ',').push(',');
        assert(text::free_of(parts[parts.len() - 1], mark));
        assert forall|i: int| 0 <= i < whole.len() implies #[trigger] whole[i] != mark by {
            if i < start.len() - 1 {
                assert(whole[i] == text::joined_by(rest, ',')[i]);
            } else if i >= start.len() {
                assert(whole[i] == parts.last()[i - start.len()]);
            }
        }
    }
}

proof fn lemma_header_splits()
    ensures
        csv_header() == text::joined_by(csv_names(), ',').push('\n'),
        text::free_of(text::joined_by(csv_names(), ','), '\n'),
        text::split(text::joined_by(csv_names(), ','), ',') == csv_names(),
{
    reveal_strlit("model");
    reveal_strlit("sir_db");
    reveal_strlit("high_band_retention_db");
    reveal_strlit("own_voice_level_db");
    reveal_strlit("own_voice_si_sdr_db");
    reveal_strlit("both_si_sdr_db");
    reveal_strlit("interferer_residual_db");
    reveal_strlit("interferer_residual_high_db");
    reveal_strlit("latency_ms");
    reveal_strlit("block_p50_ms");
    reveal_strlit("block_p99_ms");
    lemma_eleven_joined(csv_names());
    let names = csv_names();
    assert forall|k: int| 0 <= k < names.len() implies text::free_of(#[trigger] names[k], ',')
        && text::free_of(names[k], '\n') by {
    }
    text::law_split_undoes_joining(names, ',');
    lemma_joined_is_free(names, '\n');
    reveal_strlit(",");
    reveal_strlit(
        "model,sir_db,high_band_retention_db,own_voice_level_db,own_voice_si_sdr_db,both_si_sdr_db,interferer_residual_db,interferer_residual_high_db,latency_ms,block_p50_ms,block_p99_ms\n",
    );
    assert(csv_header() =~= text::joined_by(names, ',').push('\n'));
}

/// The header.
spec fn csv_header() -> Seq<char> {
    "model,sir_db,high_band_retention_db,own_voice_level_db,own_voice_si_sdr_db,both_si_sdr_db,interferer_residual_db,interferer_residual_high_db,latency_ms,block_p50_ms,block_p99_ms\n"@
}

/// The lines of the table.
proof fn lemma_csv_lines(rows: Seq<MetricRow>)
    requires
        forall|k: int| 0 <= k < rows.len() ==> plain(#[trigger] rows[k]),
    ensures
        ({
            let lines = text::split(csv_text(rows), '\n');
            &&& lines.len() == rows.len() + 2
            &&& lines[0] == text::joined_by(csv_names(), ',')
            &&& lines.last() == Seq::<char>::empty()
            &&& forall|k: int|
                0 <= k < rows.len() ==> #[trigger] lines[k + 1] == csv_body(rows[k])
        }),
    decreases rows.len(),
{
    let empty = Seq::<char>::empty();
    if rows.len() == 0 {
        lemma_header_splits();
        let head = text::joined_by(csv_names(), ',');
        assert(csv_text(rows) =~= head.push('\n'));
        text::lemma_split_at_mark(head, '\n');
        text::lemma_split_goes_on(empty, head, '\n');
        assert(text::split(empty, '\n') =~= seq![empty]);
        assert(empty + head =~= head);
    } else {
        let rest = rows.drop_last();
        assert forall|k: int| 0 <= k < rest.len() implies plain(#[trigger] rest[k]) by {
            assert(plain(rows[k]));
        }
        lemma_csv_lines(rest);
        let before = text::split(csv_text(rest), '\n');
        let body = csv_body(rows.last());
        assert(plain(rows[rows.len() - 1]));
        lemma_csv_body(rows.last());
        assert(csv_text(rows) =~= (csv_text(rest) + body).push('\n'));
        text::lemma_split_goes_on(csv_text(rest), body, '\n');
        text::lemma_split_at_mark(csv_text(rest) + body, '\n');
        assert(empty + body =~= body);
        let lines = text::split(csv_text(rows), '\n');
        assert forall|k: int| 0 <= k < rows.len() implies #[trigger] lines[k + 1] == csv_body(
            rows[k],
        ) by {
            if k < rest.len() {
                assert(before[k + 1] == csv_body(rest[k]));
            }
        }
    }
}

/// Whether every text of a row is one word without a slash.
pub open spec fn spoken(row: MetricRow) -> bool {
    forall|k: int|
        0 <= k < row_texts(row).len() ==> text::is_word(#[trigger] row_texts(row)[k])
            && text::free_of(row_texts(row)[k], '/')
}

/// A line of the printed table can be read back: its words are the metrics in the
/// order of the header, each ratio with its unit, and the last word holds both
/// block times, cut at the slash.
pub proof fn law_table_line_reads_back(row: MetricRow)
    requires
        spoken(row),
    ensures
        ({
            let said = text::words(table_line(row));
            &&& said.len() == 17
            &&& said[0] == row.model_id@
            &&& said[1] == row.sir_db@
            &&& said[2] == row.high_band_retention@
            &&& said[3] == "dB"@
            &&& said[4] == row.own_voice_level@
            &&& said[5] == "dB"@
            &&& said[6] == row.own_voice_si_sdr@
            &&& said[7] == "dB"@
            &&& said[8] == row.both_si_sdr@
            &&& said[9] == "dB"@
            &&& said[10] == row.interferer_residual@
            &&& said[11] == "dB"@
            &&& said[12] == row.interferer_residual_high@
            &&& said[13] == "dB"@
            &&& said[14] == row.latency_ms@
            &&& said[15] == "ms"@
            &&& text::split(said[16], '/').len() == 2
            &&& text::split(said[16], '/')[0] == row.block_p50_ms@
            &&& text::split(said[16], '/')[1] == row.block_p99_ms@
        }),
{
    let texts = row_texts(row);
    assert(text::is_word(texts[0]));
    assert(text::is_word(texts[1]));
    assert(text::is_word(texts[2]));
    assert(text::is_word(texts[3]));
    assert(text::is_word(texts[4]));
    assert(text::is_word(texts[5]));
    assert(text::is_word(texts[6]));
    assert(text::is_word(texts[7]));
    assert(text::is_word(texts[8]));
    assert(text::is_word(texts[9]));
    assert(text::is_word(texts[10]));
    reveal_strlit(" ");
    reveal_strlit(" dB ");
    reveal_strlit(" ms ");
    reveal_strlit("dB");
    reveal_strlit("ms");
    reveal_strlit("/");
    let empty = Seq::<char>::empty();
    assert(" dB "@ =~= " "@ + "dB"@ + " "@);
    assert(" ms "@ =~= " "@ + "ms"@ + " "@);
    let line0 = empty + text::left_aligned(row.model_id@, 18) + " "@;
    text::lemma_left_column(empty, row.model_id@, 18);
    let line1 = line0 + text::right_aligned(row.sir_db@, 5) + " "@;
    text::lemma_right_column(line0, row.sir_db@, 5);
    let line2 = line1 + text::right_aligned(row.high_band_retention@, 6) + " dB "@;
    text::lemma_column_with_unit(line1, row.high_band_retention@, 6, "dB"@, " dB "@);
    let line3 = line2 + text::right_aligned(row.own_voice_level@, 5) + " dB "@;
    text::lemma_column_with_unit(line2, row.own_voice_level@, 5, "dB"@, " dB "@);
    let line4 = line3 + text::right_aligned(row.own_voice_si_sdr@, 7) + " dB "@;
    text::lemma_column_with_unit(line3, row.own_voice_si_sdr@, 7, "dB"@, " dB "@);
    let line5 = line4 + text::right_aligned(row.both_si_sdr@, 8) + " dB "@;
    text::lemma_column_with_unit(line4, row.both_si_sdr@, 8, "dB"@, " dB "@);
    let line6 = line5 + text::right_aligned(row.interferer_residual@, 6) + " dB "@;
    text::lemma_column_with_unit(line5, row.interferer_residual@, 6, "dB"@, " dB "@);
    let line7 = line6 + text::right_aligned(row.interferer_residual_high@, 6) + " dB "@;
    text::lemma_column_with_unit(line6, row.interferer_residual_high@, 6, "dB"@, " dB "@);
    let line8 = line7 + text::right_aligned(row.latency_ms@, 5) + " ms "@;
    text::lemma_column_with_unit(line7, row.latency_ms@, 5, "ms"@, " ms "@);
    let both = row.block_p50_ms@ + "/"@ + row.block_p99_ms@;
    let gap = text::spaces(5 - row.block_p50_ms@.len());
    let tail = text::spaces(5 - row.block_p99_ms@.len());
    text::lemma_spaces_add_no_word(line8, gap);
    assert(text::free_of(both, ' ')) by {
        assert forall|i: int| 0 <= i < both.len() implies #[trigger] both[i] != ' ' by {
            let p = row.block_p50_ms@;
            let q = row.block_p99_ms@;
            if i < p.len() {
                assert(texts[9][i] != ' ');
            } else if i > p.len() {
                assert(texts[10][i - p.len() - 1] != ' ');
            }
        }
    }
    if gap.len() == 0 {
        assert(line8 + gap =~= line8);
    }
    text::lemma_one_more_word(line8 + gap, both);
    text::lemma_spaces_add_no_word(line8 + gap + both, tail);
    assert(table_line(row) =~= line8 + gap + both + tail);
    assert(row.block_p50_ms@.push('/') =~= row.block_p50_ms@ + "/"@);
    let parts = seq![row.block_p50_ms@, row.block_p99_ms@];
    assert(parts.drop_last() =~= seq![row.block_p50_ms@]);
    assert(text::joined_by(parts.drop_last(), '/') == row.block_p50_ms@);
    assert(text::joined_by(parts, '/') =~= both);
    assert(text::free_of(texts[9], '/') && text::free_of(texts[10], '/'));
    text::law_split_undoes_joining(parts, '/');
}

/// A ratio is finite exactly where its exponent is not the highest one, whatever its
/// sign.
pub proof fn law_finite_ratios_have_an_exponent(bits: u64)
    requires
        bits < RATIO_SIGN_BIT,
    ensures
        finite_ratio(bits) <==> bits as int / 0x10_0000_0000_0000 != 2047,
        finite_ratio((bits + RATIO_SIGN_BIT) as u64) == finite_ratio(bits),
{
}

/// The name of a directory says its ratio: a sign, at least two digits, and the digits
/// stand for the size of the ratio.
pub proof fn law_directory_names_say_their_ratio(whole_db: int)
    ensures
        sir_name(whole_db).len() >= 6,
        sir_name(whole_db)[3] == (if whole_db < 0 {
            '-'
        } else {
            '+'
        }),
        text::decimal_value(sir_name(whole_db).skip(4)) == absolute(whole_db),
        whole_db >= 0 ==> absolute(whole_db) == whole_db,
        whole_db < 0 ==> absolute(whole_db) == -whole_db,
{
    reveal_strlit("sir-");
    reveal_strlit("sir+");
    reveal_strlit("0");
    reveal_strlit("");
    let size = absolute(whole_db);
    text::law_decimal_reads_back(size);
    let digits = sir_name(whole_db).skip(4);
    if size < 10 {
        assert(digits =~= seq!['0', text::digit_char(size)]);
        assert(digits.drop_last() =~= seq!['0']);
        assert(seq!['0'].drop_last() =~= Seq::<char>::empty());
        reveal_with_fuel(text::decimal_value, 3);
    } else {
        assert(digits =~= text::decimal(size));
        assert(text::decimal(size).len() >= 2) by {
            assert(text::decimal(size).drop_last() =~= text::decimal(size / 10));
            text::law_decimal_reads_back(size / 10);
        }
    }
}

/// The key of a listening set says which model is which: each line begins with the
/// directory, names the file, and ends with the model.
pub proof fn law_keys_name_the_file_and_its_model(
    sir_dir: Seq<char>,
    name: Seq<char>,
    model: Seq<char>,
)
    ensures
        ({
            let line = key_text(sir_dir, name, model);
            let after = (sir_dir.len() + 7) as int;
            &&& line.len() == sir_dir.len() + 7 + name.len() + 7 + model.len()
            &&& line.take(sir_dir.len() as int) == sir_dir
            &&& line.subrange(after, after + name.len()) == name
            &&& line.skip(line.len() - model.len()) == model
        }),
{
    reveal_strlit("/blind/");
    reveal_strlit(".wav = ");
    let line = key_text(sir_dir, name, model);
    let after = (sir_dir.len() + 7) as int;
    assert(line.take(sir_dir.len() as int) =~= sir_dir);
    assert(line.subrange(after, after + name.len()) =~= name);
    assert(line.skip(line.len() - model.len()) =~= model);
}

/// The names of a listening set run through the capital letters, and behind the last
/// they start over with the number of the round.
pub proof fn law_blind_names_run_through_the_letters(index: int)
    requires
        index >= 0,
    ensures
        'A' <= letter_name(index)[0] <= 'Z',
        letter_name(index)[0] as int - 'A' as int == index % 26,
        index < 26 ==> letter_name(index).len() == 1,
        index >= 26 ==> text::decimal_value(letter_name(index).skip(1)) == index / 26,
{
    if index >= 26 {
        text::law_decimal_reads_back((index / 26) as nat);
        assert(letter_name(index).skip(1) =~= text::decimal((index / 26) as nat));
    }
}

/// Whether every text of a row fits its column.
pub open spec fn fits(row: MetricRow) -> bool {
    &&& row.model_id@.len() <= 18
    &&& row.sir_db@.len() <= 5
    &&& row.high_band_retention@.len() <= 6
    &&& row.own_voice_level@.len() <= 5
    &&& row.own_voice_si_sdr@.len() <= 7
    &&& row.both_si_sdr@.len() <= 8
    &&& row.interferer_residual@.len() <= 6
    &&& row.interferer_residual_high@.len() <= 6
    &&& row.latency_ms@.len() <= 5
    &&& row.block_p50_ms@.len() <= 5
    &&& row.block_p99_ms@.len() <= 5
}

/// The columns of the table stand under their labels: where every text fits, the model
/// begins at the left edge and each metric ends where its column does, in every row at
/// the same place.
pub proof fn law_columns_stand_in_their_places(row: MetricRow)
    requires
        fits(row),
    ensures
        ({
            let line = table_line(row);
            &&& line.len() == 107
            &&& line.subrange(0, row.model_id@.len() as int) == row.model_id@
            &&& line.subrange(24 - row.sir_db@.len(), 24) == row.sir_db@
            &&& line.subrange(31 - row.high_band_retention@.len(), 31) == row.high_band_retention@
            &&& line.subrange(40 - row.own_voice_level@.len(), 40) == row.own_voice_level@
            &&& line.subrange(51 - row.own_voice_si_sdr@.len(), 51) == row.own_voice_si_sdr@
            &&& line.subrange(63 - row.both_si_sdr@.len(), 63) == row.both_si_sdr@
            &&& line.subrange(73 - row.interferer_residual@.len(), 73) == row.interferer_residual@
            &&& line.subrange(83 - row.interferer_residual_high@.len(), 83) == row.interferer_residual_high@
            &&& line.subrange(92 - row.latency_ms@.len(), 92) == row.latency_ms@
            &&& line.subrange(101 - row.block_p50_ms@.len(), 101) == row.block_p50_ms@
            &&& line.subrange(102, 102 + row.block_p99_ms@.len() as int) == row.block_p99_ms@
        }),
{
    reveal_strlit(" ");
    reveal_strlit(" dB ");
    reveal_strlit(" ms ");
    reveal_strlit("/");
    let l0 = text::left_aligned(row.model_id@, 18) + " "@;
    text::law_fields_fill_their_columns(row.model_id@, 18);
    assert(l0.len() == 19);
    assert(l0.subrange(0, row.model_id@.len() as int) =~= row.model_id@);
    let l1 = l0 + text::right_aligned(row.sir_db@, 5) + " "@;
    text::law_fields_fill_their_columns(row.sir_db@, 5);
    assert(l1.len() == 25);
    lemma_right_field(l0, row.sir_db@, 5, " "@);
    let l2 = l1 + text::right_aligned(row.high_band_retention@, 6) + " dB "@;
    text::law_fields_fill_their_columns(row.high_band_retention@, 6);
    assert(l2.len() == 35);
    lemma_right_field(l1, row.high_band_retention@, 6, " dB "@);
    let l3 = l2 + text::right_aligned(row.own_voice_level@, 5) + " dB "@;
    text::law_fields_fill_their_columns(row.own_voice_level@, 5);
    assert(l3.len() == 44);
    lemma_right_field(l2, row.own_voice_level@, 5, " dB "@);
    let l4 = l3 + text::right_aligned(row.own_voice_si_sdr@, 7) + " dB "@;
    text::law_fields_fill_their_columns(row.own_voice_si_sdr@, 7);
    assert(l4.len() == 55);
    lemma_right_field(l3, row.own_voice_si_sdr@, 7, " dB "@);
    let l5 = l4 + text::right_aligned(row.both_si_sdr@, 8) + " dB "@;
    text::law_fields_fill_their_columns(row.both_si_sdr@, 8);
    assert(l5.len() == 67);
    lemma_right_field(l4, row.both_si_sdr@, 8, " dB "@);
    let l6 = l5 + text::right_aligned(row.interferer_residual@, 6) + " dB "@;
    text::law_fields_fill_their_columns(row.interferer_residual@, 6);
    assert(l6.len() == 77);
    lemma_right_field(l5, row.interferer_residual@, 6, " dB "@);
    let l7 = l6 + text::right_aligned(row.interferer_residual_high@, 6) + " dB "@;
    text::law_fields_fill_their_columns(row.interferer_residual_high@, 6);
    assert(l7.len() == 87);
    lemma_right_field(l6, row.interferer_residual_high@, 6, " dB "@);
    let l8 = l7 + text::right_aligned(row.latency_ms@, 5) + " ms "@;
    text::law_fields_fill_their_columns(row.latency_ms@, 5);
    assert(l8.len() == 96);
    lemma_right_field(l7, row.latency_ms@, 5, " ms "@);
    let l9 = l8 + text::right_aligned(row.block_p50_ms@, 5) + "/"@;
    text::law_fields_fill_their_columns(row.block_p50_ms@, 5);
    assert(l9.len() == 102);
    lemma_right_field(l8, row.block_p50_ms@, 5, "/"@);
    let whole = l9 + text::left_aligned(row.block_p99_ms@, 5);
    text::law_fields_fill_their_columns(row.block_p99_ms@, 5);
    assert(table_line(row) =~= whole);
    assert(whole.subrange(102, 102 + row.block_p99_ms@.len() as int) =~= row.block_p99_ms@);
    assert(whole.take(l0.len() as int) =~= l0);
    assert(whole.take(l1.len() as int) =~= l1);
    assert(whole.take(l2.len() as int) =~= l2);
    assert(whole.take(l3.len() as int) =~= l3);
    assert(whole.take(l4.len() as int) =~= l4);
    assert(whole.take(l5.len() as int) =~= l5);
    assert(whole.take(l6.len() as int) =~= l6);
    assert(whole.take(l7.len() as int) =~= l7);
    assert(whole.take(l8.len() as int) =~= l8);
    assert(whole.subrange(0, row.model_id@.len() as int) =~= l0.subrange(
        0,
        row.model_id@.len() as int,
    ));
    assert(whole.subrange(24 - row.sir_db@.len(), 24) =~= l1.subrange(
        24 - row.sir_db@.len(),
        24,
    ));
    assert(whole.subrange(31 - row.high_band_retention@.len(), 31) =~= l2.subrange(
        31 - row.high_band_retention@.len(),
        31,
    ));
    assert(whole.subrange(40 - row.own_voice_level@.len(), 40) =~= l3.subrange(
        40 - row.own_voice_level@.len(),
        40,
    ));
    assert(whole.subrange(51 - row.own_voice_si_sdr@.len(), 51) =~= l4.subrange(
        51 - row.own_voice_si_sdr@.len(),
        51,
    ));
    assert(whole.subrange(63 - row.both_si_sdr@.len(), 63) =~= l5.subrange(
        63 - row.both_si_sdr@.len(),
        63,
    ));
    assert(whole.subrange(73 - row.interferer_residual@.len(), 73) =~= l6.subrange(
        73 - row.interferer_residual@.len(),
        73,
    ));
    assert(whole.subrange(83 - row.interferer_residual_high@.len(), 83) =~= l7.subrange(
        83 - row.interferer_residual_high@.len(),
        83,
    ));
    assert(whole.subrange(92 - row.latency_ms@.len(), 92) =~= l8.subrange(
        92 - row.latency_ms@.len(),
        92,
    ));
    assert(whole.subrange(101 - row.block_p50_ms@.len(), 101) =~= l9.subrange(
        101 - row.block_p50_ms@.len(),
        101,
    ));
}

/// A field at the right of a column ends where the column does.
proof fn lemma_right_field(start: Seq<char>, field: Seq<char>, width: int, after: Seq<char>)
    requires
        field.len() <= width,
    ensures
        ({
            let line = start + text::right_aligned(field, width) + after;
            let end = start.len() + width;
            line.subrange(end - field.len(), end) == field
        }),
{
    let line = start + text::right_aligned(field, width) + after;
    let end = start.len() + width;
    assert(line.subrange(end - field.len(), end) =~= field);
}

/// The message for a collision names the ratio that was there first, then the one that
/// collides with it.
pub proof fn law_collisions_name_both_ratios(sirs: Seq<SirRatio>, other: usize, i: usize)
    requires
        other < sirs.len(),
        i < sirs.len(),
    ensures
        ({
            let told = sir_error_text(sirs, SirError::Collision(other, i));
            let first = sirs[other as int].shown@;
            let second = sirs[i as int].shown@;
            &&& text::stands_behind(told, Seq::empty(), "--sir "@, first)
            &&& text::stands_behind(told, "--sir "@ + first, " and "@, second)
        }),
{
    let told = sir_error_text(sirs, SirError::Collision(other, i));
    let first = sirs[other as int].shown@;
    let second = sirs[i as int].shown@;
    let front = "--sir "@ + first + " and "@ + second;
    let start = ("--sir "@ + first).len() + " and "@.len();
    text::lemma_message_of_four("--sir "@, first, " and "@, second);
    assert(told.take(front.len() as int) =~= front);
    assert(told.take("--sir "@.len() as int) =~= front.take("--sir "@.len() as int));
    assert(Seq::<char>::empty() + "--sir "@ =~= "--sir "@);
    assert(told.subrange("--sir "@.len() as int, "--sir "@.len() as int + first.len())
        =~= first);
    assert(told.take(start as int) =~= front.take(start as int));
    assert(told.subrange(start as int, start as int + second.len()) =~= second);
}

} // verus!
