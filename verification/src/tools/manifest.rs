//! The manifest of a comparison run: what was measured, for every model.
//!
//! Numbers that come out of floating-point work arrive here as text.

use vstd::prelude::*;
use vstd::string::*;

use crate::text;
use crate::text::push_decimal;

verus! {

/// Name of the unprocessed reference file written next to the results.
pub const REFERENCE_NAME: &'static str = "00-reference-unprocessed.wav";

/// One row of the manifest.
#[derive(Debug)]
pub struct Row {
    /// The output file.
    pub file_name: String,
    /// The model's name.
    pub display_name: String,
    /// The model's rate in hertz.
    pub native_rate: u32,
    /// Measured delay in milliseconds, where it could be measured.
    pub measured_delay_ms: Option<String>,
    /// The model's own delay in samples at its rate, where it is known.
    pub model_delay_native: Option<u64>,
    /// How many times faster than real time the model ran.
    pub speed_factor: String,
    /// Peak of the output.
    pub peak: String,
    /// Level of the output, unless it is silent.
    pub rms_dbfs: Option<String>,
    /// How often the runner's output ran dry.
    pub underruns: u64,
    /// Samples trimmed to align the output.
    pub aligned_by: u64,
}

/// The measured delay, or that there is none.
pub open spec fn measured_text(measured: Option<String>) -> Seq<char> {
    match measured {
        Some(ms) => ms@ + " ms"@,
        None => "not measurable"@,
    }
}

/// The model's own delay, or that it is unknown.
pub open spec fn delay_text(delay: Option<u64>, rate: u32) -> Seq<char> {
    match delay {
        Some(samples) => text::decimal(samples as nat) + " samples @ "@ + text::decimal(rate as nat)
            + " Hz"@,
        None => "unknown"@,
    }
}

/// The level, or that there is none.
pub open spec fn level_text(rms: Option<String>) -> Seq<char> {
    match rms {
        Some(db) => db@ + " dBFS"@,
        None => "silent"@,
    }
}

/// One line of the table.
pub open spec fn row_text(row: Row) -> Seq<char> {
    "| `"@ + row.file_name@ + "` | "@ + row.display_name@ + " | "@ + text::decimal(
        (row.native_rate / 1000) as nat,
    ) + " kHz | "@ + measured_text(row.measured_delay_ms) + " | "@ + delay_text(
        row.model_delay_native,
        row.native_rate,
    ) + " | "@ + text::decimal(row.aligned_by as nat) + " samples | "@ + row.speed_factor@ + "x | "@
        + row.peak@ + " | "@ + level_text(row.rms_dbfs) + " |\n"@
}

/// The lines of the table.
pub open spec fn rows_text(rows: Seq<Row>) -> Seq<char>
    decreases rows.len(),
{
    if rows.len() == 0 {
        Seq::empty()
    } else {
        rows_text(rows.drop_last()) + row_text(rows.last())
    }
}

/// Underruns of all rows together.
pub open spec fn glitches(rows: Seq<Row>) -> nat
    decreases rows.len(),
{
    if rows.len() == 0 {
        0
    } else {
        glitches(rows.drop_last()) + rows.last().underruns as nat
    }
}

/// What the manifest says before the table.
pub open spec fn head_text(input: Seq<char>, seconds: Seq<char>, rate: u32) -> Seq<char> {
    "# noican comparison\n\n- Input: `"@ + input + "`\n- Duration: "@ + seconds + " s at "@
        + text::decimal(rate as nat) + " Hz\n- Reference (unprocessed, same rate and length): `"@
        + REFERENCE_NAME@
        + "`\n\nEvery output is aligned to the reference, so switching between files compares the models rather than a time offset. `Speed` is how many times faster than real time the model ran on this machine; anything below 1.0 cannot keep up live.\n\n| File | Model | Native rate | Measured delay | Model delay | Aligned by | Speed | Peak | RMS |\n|---|---|---|---|---|---|---|---|---|\n"@
}

/// What the manifest says after the table.
pub open spec fn tail_text(underruns: nat) -> Seq<char> {
    if underruns == 0 {
        "\nNo output underruns: every host block produced a full host block.\n"@
    } else {
        "\n**"@ + text::decimal(underruns)
            + " output underruns.** The runner had to emit silence, which means its priming estimate is too small for one of these rate ratios.\n"@
    }
}

/// The manifest.
pub open spec fn manifest_text(
    input: Seq<char>,
    seconds: Seq<char>,
    rate: u32,
    rows: Seq<Row>,
) -> Seq<char> {
    head_text(input, seconds, rate) + rows_text(rows) + tail_text(glitches(rows))
}

fn describe_measured(measured: &Option<String>) -> (shown: String)
    ensures
        shown@ == measured_text(*measured),
{
    match measured {
        Some(ms) => {
            let mut shown = ms.as_str().to_owned();
            shown.append(" ms");
            shown
        },
        None => "not measurable".to_owned(),
    }
}

fn describe_delay(delay: Option<u64>, rate: u32) -> (shown: String)
    ensures
        shown@ == delay_text(delay, rate),
{
    match delay {
        Some(samples) => {
            let mut shown = "".to_owned();
            proof {
                reveal_strlit("");
            }
            push_decimal(&mut shown, samples);
            assert(shown@ =~= text::decimal(samples as nat));
            shown.append(" samples @ ");
            push_decimal(&mut shown, rate as u64);
            shown.append(" Hz");
            shown
        },
        None => "unknown".to_owned(),
    }
}

fn describe_level(rms: &Option<String>) -> (shown: String)
    ensures
        shown@ == level_text(*rms),
{
    match rms {
        Some(db) => {
            let mut shown = db.as_str().to_owned();
            shown.append(" dBFS");
            shown
        },
        None => "silent".to_owned(),
    }
}

/// One line of the table.
fn render_row(row: &Row) -> (line: String)
    ensures
        line@ == row_text(*row),
{
    let measured: String = describe_measured(&row.measured_delay_ms);
    let delay: String = describe_delay(row.model_delay_native, row.native_rate);
    let rms: String = describe_level(&row.rms_dbfs);
    let mut line = "| `".to_owned();
    line.append(row.file_name.as_str());
    line.append("` | ");
    line.append(row.display_name.as_str());
    line.append(" | ");
    push_decimal(&mut line, (row.native_rate / 1000) as u64);
    line.append(" kHz | ");
    line.append(measured.as_str());
    line.append(" | ");
    line.append(delay.as_str());
    line.append(" | ");
    push_decimal(&mut line, row.aligned_by);
    line.append(" samples | ");
    line.append(row.speed_factor.as_str());
    line.append("x | ");
    line.append(row.peak.as_str());
    line.append(" | ");
    line.append(rms.as_str());
    line.append(" |\n");
    line
}

/// Renders the manifest.
pub fn render_manifest(input: &str, seconds: &str, rate: u32, rows: &[Row]) -> (manifest: String)
    requires
        glitches(rows@) <= u64::MAX,
    ensures
        manifest@ == manifest_text(input@, seconds@, rate, rows@),
{
    let mut manifest = "# noican comparison\n\n- Input: `".to_owned();
    manifest.append(input);
    manifest.append("`\n- Duration: ");
    manifest.append(seconds);
    manifest.append(" s at ");
    push_decimal(&mut manifest, rate as u64);
    manifest.append(" Hz\n- Reference (unprocessed, same rate and length): `");
    manifest.append(REFERENCE_NAME);
    manifest.append(
        "`\n\nEvery output is aligned to the reference, so switching between files compares the models rather than a time offset. `Speed` is how many times faster than real time the model ran on this machine; anything below 1.0 cannot keep up live.\n\n| File | Model | Native rate | Measured delay | Model delay | Aligned by | Speed | Peak | RMS |\n|---|---|---|---|---|---|---|---|---|\n",
    );
    let ghost head = manifest@;
    assert(head =~= head_text(input@, seconds@, rate));
    let mut underruns: u64 = 0;
    let mut i: usize = 0;
    assert(manifest@ =~= head + rows_text(rows@.take(0)));
    while i < rows.len()
        invariant
            i <= rows@.len(),
            glitches(rows@) <= u64::MAX,
            underruns == glitches(rows@.take(i as int)),
            manifest@ == head + rows_text(rows@.take(i as int)),
        decreases rows@.len() - i,
    {
        let ghost before = manifest@;
        proof {
            assert(rows@.take(i + 1).drop_last() =~= rows@.take(i as int));
            lemma_glitches_grow(rows@, i + 1);
        }
        let line: String = render_row(&rows[i]);
        manifest.append(line.as_str());
        underruns = underruns + rows[i].underruns;
        i = i + 1;
        assert(manifest@ =~= head + rows_text(rows@.take(i as int)));
    }
    assert(rows@.take(i as int) =~= rows@);
    if underruns == 0 {
        manifest.append("\nNo output underruns: every host block produced a full host block.\n");
    } else {
        manifest.append("\n**");
        push_decimal(&mut manifest, underruns);
        manifest.append(
            " output underruns.** The runner had to emit silence, which means its priming estimate is too small for one of these rate ratios.\n",
        );
    }
    assert(manifest@ =~= manifest_text(input@, seconds@, rate, rows@));
    manifest
}

proof fn lemma_glitches_grow(rows: Seq<Row>, count: int)
    requires
        0 <= count <= rows.len(),
    ensures
        glitches(rows.take(count)) <= glitches(rows),
    decreases rows.len(),
{
    if count < rows.len() {
        lemma_glitches_grow(rows.drop_last(), count);
        assert(rows.drop_last().take(count) =~= rows.take(count));
    } else {
        assert(rows.take(count) =~= rows);
    }
}

/// The cells of a line of the table, each with its unit, and what stands before the
/// first bar and behind the last.
pub open spec fn cells(row: Row) -> Seq<Seq<char>> {
    seq![
        ""@,
        " `"@ + row.file_name@ + "` "@,
        " "@ + row.display_name@ + " "@,
        " "@ + text::decimal((row.native_rate / 1000) as nat) + " kHz "@,
        match row.measured_delay_ms {
            Some(ms) => " "@ + ms@ + " ms "@,
            None => " not measurable "@,
        },
        match row.model_delay_native {
            Some(samples) => " "@ + text::decimal(samples as nat) + " samples @ "@
                + text::decimal(row.native_rate as nat) + " Hz "@,
            None => " unknown "@,
        },
        " "@ + text::decimal(row.aligned_by as nat) + " samples "@,
        " "@ + row.speed_factor@ + "x "@,
        " "@ + row.peak@ + " "@,
        match row.rms_dbfs {
            Some(db) => " "@ + db@ + " dBFS "@,
            None => " silent "@,
        },
        "\n"@,
    ]
}

/// Whether no text of a row holds a bar.
pub open spec fn bar_free(row: Row) -> bool {
    &&& text::free_of(row.file_name@, '|')
    &&& text::free_of(row.display_name@, '|')
    &&& text::free_of(row.speed_factor@, '|')
    &&& text::free_of(row.peak@, '|')
    &&& row.measured_delay_ms matches Some(ms) ==> text::free_of(ms@, '|')
    &&& row.rms_dbfs matches Some(db) ==> text::free_of(db@, '|')
}

/// A line of the table can be read back: cut at its bars it gives the cells of the
/// row, in the order of the columns.
pub proof fn law_table_cells_hold_the_row(row: Row)
    requires
        bar_free(row),
    ensures
        text::split(row_text(row), '|') == cells(row),
{
    lemma_cells_are_free(row);
    lemma_cells_join(row);
    text::law_split_undoes_joining(cells(row), '|');
}

proof fn lemma_cells_are_free(row: Row)
    requires
        bar_free(row),
    ensures
        forall|i: int| 0 <= i < cells(row).len() ==> text::free_of(#[trigger] cells(row)[i], '|'),
{
    reveal_strlit("");
    reveal_strlit(" `");
    reveal_strlit("` ");
    reveal_strlit(" ");
    reveal_strlit(" kHz ");
    reveal_strlit(" ms ");
    reveal_strlit(" not measurable ");
    reveal_strlit(" samples @ ");
    reveal_strlit(" Hz ");
    reveal_strlit(" unknown ");
    reveal_strlit(" samples ");
    reveal_strlit("x ");
    reveal_strlit(" dBFS ");
    reveal_strlit(" silent ");
    reveal_strlit("\n");
    lemma_numbers_are_free((row.native_rate / 1000) as nat);
    lemma_numbers_are_free(row.native_rate as nat);
    lemma_numbers_are_free(row.aligned_by as nat);
    lemma_free_between(" `"@, row.file_name@, "` "@);
    lemma_free_between(" "@, row.display_name@, " "@);
    lemma_free_between(" "@, text::decimal((row.native_rate / 1000) as nat), " kHz "@);
    if row.measured_delay_ms is Some {
        lemma_free_between(" "@, row.measured_delay_ms->0@, " ms "@);
    }
    if row.model_delay_native is Some {
        lemma_numbers_are_free(row.model_delay_native->0 as nat);
        let samples = text::decimal(row.model_delay_native->0 as nat);
        lemma_free_between(" "@, samples, " samples @ "@);
        lemma_free_between(
            " "@ + samples + " samples @ "@,
            text::decimal(row.native_rate as nat),
            " Hz "@,
        );
    }
    lemma_free_between(" "@, text::decimal(row.aligned_by as nat), " samples "@);
    lemma_free_between(" "@, row.speed_factor@, "x "@);
    lemma_free_between(" "@, row.peak@, " "@);
    if row.rms_dbfs is Some {
        lemma_free_between(" "@, row.rms_dbfs->0@, " dBFS "@);
    }
}

proof fn lemma_numbers_are_free(number: nat)
    ensures
        text::free_of(text::decimal(number), '|'),
{
    text::law_decimal_reads_back(number);
    let digits = text::decimal(number);
    assert forall|i: int| 0 <= i < digits.len() implies #[trigger] digits[i] != '|' by {
        assert(text::is_digit(digits[i]));
    }
}

/// One cell more: what stands between two cells is the end of the first, a bar and a
/// space.
proof fn lemma_one_more_cell(
    line: Seq<char>,
    end: Seq<char>,
    between: Seq<char>,
    inner: Seq<char>,
    next: Seq<char>,
)
    requires
        between == end.push('|') + " "@,
    ensures
        (line + end).push('|') + (" "@ + inner + next) == line + between + inner + next,
{
    assert((line + end).push('|') + (" "@ + inner + next) =~= line + between + inner + next);
}

proof fn lemma_cells_join(row: Row)
    ensures
        text::joined_by(cells(row), '|') == row_text(row),
{
    let parts = cells(row);
    lemma_eleven_cells(parts);
    lemma_optional_cells(row);
    lemma_line_of_cells(
        row.file_name@,
        row.display_name@,
        text::decimal((row.native_rate / 1000) as nat),
        measured_text(row.measured_delay_ms),
        delay_text(row.model_delay_native, row.native_rate),
        text::decimal(row.aligned_by as nat),
        row.speed_factor@,
        row.peak@,
        level_text(row.rms_dbfs),
    );
}

/// Eleven cells with bars between them.
spec fn barred(parts: Seq<Seq<char>>, count: nat) -> Seq<char>
    decreases count,
{
    if count == 0 {
        parts[0]
    } else {
        barred(parts, (count - 1) as nat).push('|') + parts[count as int]
    }
}

proof fn lemma_eleven_cells(parts: Seq<Seq<char>>)
    requires
        parts.len() == 11,
    ensures
        text::joined_by(parts, '|') == line_of(
            parts[0],
            parts[1],
            parts[2],
            parts[3],
            parts[4],
            parts[5],
            parts[6],
            parts[7],
            parts[8],
            parts[9],
            parts[10],
        ),
{
    lemma_barred(parts, 10);
    assert(parts.take(11) =~= parts);
    reveal_with_fuel(barred, 11);
}

proof fn lemma_barred(parts: Seq<Seq<char>>, count: nat)
    requires
        count < parts.len(),
    ensures
        text::joined_by(parts.take(count as int + 1), '|') == barred(parts, count),
    decreases count,
{
    if count == 0 {
        assert(parts.take(1)[0] == parts[0]);
    } else {
        lemma_barred(parts, (count - 1) as nat);
        assert(parts.take(count as int + 1).drop_last() =~= parts.take(count as int));
        assert(parts.take(count as int + 1).last() == parts[count as int]);
    }
}

/// Eleven cells with bars between them.
spec fn line_of(
    a: Seq<char>,
    b: Seq<char>,
    c: Seq<char>,
    d: Seq<char>,
    e: Seq<char>,
    f: Seq<char>,
    g: Seq<char>,
    h: Seq<char>,
    i: Seq<char>,
    j: Seq<char>,
    k: Seq<char>,
) -> Seq<char> {
    let five = (((a.push('|') + b).push('|') + c).push('|') + d).push('|') + e;
    let ten = ((((five.push('|') + f).push('|') + g).push('|') + h).push('|') + i).push('|') + j;
    ten.push('|') + k
}

proof fn lemma_line_of_cells(
    file: Seq<char>,
    name: Seq<char>,
    rate: Seq<char>,
    measured: Seq<char>,
    delay: Seq<char>,
    aligned: Seq<char>,
    speed: Seq<char>,
    peak: Seq<char>,
    level: Seq<char>,
)
    ensures
        line_of(
            ""@,
            " `"@ + file + "` "@,
            " "@ + name + " "@,
            " "@ + rate + " kHz "@,
            " "@ + measured + " "@,
            " "@ + delay + " "@,
            " "@ + aligned + " samples "@,
            " "@ + speed + "x "@,
            " "@ + peak + " "@,
            " "@ + level + " "@,
            "\n"@,
        ) == "| `"@ + file + "` | "@ + name + " | "@ + rate + " kHz | "@ + measured + " | "@
            + delay + " | "@ + aligned + " samples | "@ + speed + "x | "@ + peak + " | "@ + level
            + " |\n"@,
{
    lemma_marks();
    let l1 = "| `"@ + file;
    assert(""@.push('|') + (" `"@ + file + "` "@) == l1 + "` "@) by {
        reveal_strlit("| `");
        reveal_strlit(" `");
        reveal_strlit("");
        assert(""@.push('|') + (" `"@ + file + "` "@) =~= l1 + "` "@);
    }
    let l2 = l1 + "` | "@ + name;
    lemma_one_more_cell(l1, "` "@, "` | "@, name, " "@);
    let l3 = l2 + " | "@ + rate;
    lemma_one_more_cell(l2, " "@, " | "@, rate, " kHz "@);
    let l4 = l3 + " kHz | "@ + measured;
    lemma_one_more_cell(l3, " kHz "@, " kHz | "@, measured, " "@);
    let l5 = l4 + " | "@ + delay;
    lemma_one_more_cell(l4, " "@, " | "@, delay, " "@);
    let l6 = l5 + " | "@ + aligned;
    lemma_one_more_cell(l5, " "@, " | "@, aligned, " samples "@);
    let l7 = l6 + " samples | "@ + speed;
    lemma_one_more_cell(l6, " samples "@, " samples | "@, speed, "x "@);
    let l8 = l7 + "x | "@ + peak;
    lemma_one_more_cell(l7, "x "@, "x | "@, peak, " "@);
    let l9 = l8 + " | "@ + level;
    lemma_one_more_cell(l8, " "@, " | "@, level, " "@);
    assert((l9 + " "@).push('|') + "\n"@ == l9 + " |\n"@) by {
        reveal_strlit(" ");
        reveal_strlit("\n");
        reveal_strlit(" |\n");
        assert((l9 + " "@).push('|') + "\n"@ =~= l9 + " |\n"@);
    }
}

/// What stands between two cells.
proof fn lemma_marks()
    ensures
        "` | "@ == "` "@.push('|') + " "@,
        " | "@ == " "@.push('|') + " "@,
        " kHz | "@ == " kHz "@.push('|') + " "@,
        " samples | "@ == " samples "@.push('|') + " "@,
        "x | "@ == "x "@.push('|') + " "@,
{
    reveal_strlit(" ");
    assert("` | "@ =~= "` "@.push('|') + " "@) by {
        reveal_strlit("` | ");
        reveal_strlit("` ");
    }
    assert(" | "@ =~= " "@.push('|') + " "@) by {
        reveal_strlit(" | ");
    }
    assert(" kHz | "@ =~= " kHz "@.push('|') + " "@) by {
        reveal_strlit(" kHz | ");
        reveal_strlit(" kHz ");
    }
    assert(" samples | "@ =~= " samples "@.push('|') + " "@) by {
        reveal_strlit(" samples | ");
        reveal_strlit(" samples ");
    }
    assert("x | "@ =~= "x "@.push('|') + " "@) by {
        reveal_strlit("x | ");
        reveal_strlit("x ");
    }
}

/// The cells of what may be missing.
proof fn lemma_optional_cells(row: Row)
    ensures
        cells(row)[4] == " "@ + measured_text(row.measured_delay_ms) + " "@,
        cells(row)[5] == " "@ + delay_text(row.model_delay_native, row.native_rate) + " "@,
        cells(row)[9] == " "@ + level_text(row.rms_dbfs) + " "@,
{
    reveal_strlit(" ");
    assert(cells(row)[4] =~= " "@ + measured_text(row.measured_delay_ms) + " "@) by {
        reveal_strlit(" ms ");
        reveal_strlit(" ms");
        reveal_strlit(" not measurable ");
        reveal_strlit("not measurable");
    }
    assert(cells(row)[5] =~= " "@ + delay_text(row.model_delay_native, row.native_rate) + " "@)
        by {
        reveal_strlit(" Hz ");
        reveal_strlit(" Hz");
        reveal_strlit(" unknown ");
        reveal_strlit("unknown");
    }
    assert(cells(row)[9] =~= " "@ + level_text(row.rms_dbfs) + " "@) by {
        reveal_strlit(" dBFS ");
        reveal_strlit(" dBFS");
        reveal_strlit(" silent ");
        reveal_strlit("silent");
    }
}

proof fn lemma_free_between(before: Seq<char>, inner: Seq<char>, after: Seq<char>)
    requires
        text::free_of(before, '|'),
        text::free_of(inner, '|'),
        text::free_of(after, '|'),
    ensures
        text::free_of(before + inner + after, '|'),
{
    let whole = before + inner + after;
    assert forall|i: int| 0 <= i < whole.len() implies #[trigger] whole[i] != '|' by {
        if i < before.len() {
            assert(before[i] != '|');
        } else if i < before.len() + inner.len() {
            assert(inner[i - before.len()] != '|');
        } else {
            assert(after[i - before.len() - inner.len()] != '|');
        }
    }
}

/// The table has the rows in their order, and the underruns of all of them count.
pub proof fn law_rows_and_underruns_add_up(first: Seq<Row>, second: Seq<Row>)
    ensures
        rows_text(first + second) == rows_text(first) + rows_text(second),
        glitches(first + second) == glitches(first) + glitches(second),
        glitches(second) == 0 <==> forall|i: int|
            0 <= i < second.len() ==> (#[trigger] second[i]).underruns == 0,
    decreases second.len(),
{
    if second.len() > 0 {
        let shorter = second.drop_last();
        let last = second.len() - 1;
        law_rows_and_underruns_add_up(first, shorter);
        assert((first + second).drop_last() =~= first + shorter);
        assert(rows_text(first + second) =~= rows_text(first) + rows_text(second));
        assert(second[last] == second.last());
        if glitches(second) == 0 {
            assert forall|i: int| 0 <= i < second.len() implies (#[trigger] second[i]).underruns
                == 0 by {
                if i < last {
                    assert(shorter[i] == second[i]);
                }
            }
        }
        if forall|i: int| 0 <= i < second.len() ==> (#[trigger] second[i]).underruns == 0 {
            assert forall|i: int| 0 <= i < shorter.len() implies (#[trigger] shorter[i]).underruns
                == 0 by {
                assert(second[i].underruns == 0);
            }
            assert(second[last].underruns == 0);
        }
    } else {
        assert(first + second =~= first);
        assert(rows_text(first) + rows_text(second) =~= rows_text(first));
    }
}

/// The manifest has the table between what is said before and after it, and ends with
/// the number of underruns where there were any.
pub proof fn law_manifest_counts_the_underruns(
    input: Seq<char>,
    seconds: Seq<char>,
    rate: u32,
    rows: Seq<Row>,
)
    ensures
        ({
            let whole = manifest_text(input, seconds, rate, rows);
            let head = head_text(input, seconds, rate).len() as int;
            let table = rows_text(rows);
            let tail = whole.skip(head + table.len());
            &&& whole.subrange(head, head + table.len()) == table
            &&& glitches(rows) == 0 ==> tail.take(4) == seq!['\n', 'N', 'o', ' ']
            &&& glitches(rows) > 0 ==> tail.take(3) == seq!['\n', '*', '*'] && tail.subrange(
                3,
                3 + text::decimal(glitches(rows)).len() as int,
            ) == text::decimal(glitches(rows))
        }),
{
    let whole = manifest_text(input, seconds, rate, rows);
    let head = head_text(input, seconds, rate).len() as int;
    let table = rows_text(rows);
    let tail = whole.skip(head + table.len());
    assert(whole.subrange(head, head + table.len()) =~= table);
    assert(tail =~= tail_text(glitches(rows)));
    if glitches(rows) == 0 {
        reveal_strlit("\nNo output underruns: every host block produced a full host block.\n");
        assert(tail.take(4) =~= seq!['\n', 'N', 'o', ' ']);
    } else {
        reveal_strlit("\n**");
        let shown = text::decimal(glitches(rows));
        assert(tail.take(3) =~= seq!['\n', '*', '*']);
        assert(tail.subrange(3, 3 + shown.len() as int) =~= shown);
    }
}

} // verus!
