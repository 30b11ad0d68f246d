//! Small decisions of the command line: which models to run, how sizes and
//! lists are shown, and what a command ends with.

use vstd::prelude::*;
use vstd::string::*;

use super::batch;
use crate::signal::single;
use crate::signal::single::round_nearest_even;
use crate::text;
use crate::text::{push_decimal, push_left, push_right, same_text};

verus! {

/// The texts in a row, separated by commas.
pub open spec fn listed(items: Seq<Seq<char>>) -> Seq<char>
    decreases items.len(),
{
    if items.len() == 0 {
        Seq::empty()
    } else if items.len() == 1 {
        items[0]
    } else {
        listed(items.drop_last()) + ", "@ + items.last()
    }
}

/// Joins texts with commas.
pub fn join_names(items: &Vec<String>) -> (joined: String)
    ensures
        joined@ == listed(batch::texts(items@)),
{
    let mut joined = "".to_owned();
    proof {
        reveal_strlit("");
    }
    let ghost all = batch::texts(items@);
    let mut i: usize = 0;
    assert(joined@ =~= listed(all.take(0)));
    while i < items.len()
        invariant
            i <= items@.len(),
            all == batch::texts(items@),
            joined@ == listed(all.take(i as int)),
        decreases items@.len() - i,
    {
        proof {
            assert(all.take(i + 1).drop_last() =~= all.take(i as int));
            assert(all.take(i + 1).last() == items@[i as int]@);
        }
        if i > 0 {
            joined.append(", ");
        }
        joined.append(items[i].as_str());
        assert(joined@ =~= listed(all.take(i + 1)));
        i = i + 1;
    }
    assert(all.take(i as int) =~= all);
    joined
}

/// The place of a text in a catalog, if it is there.
pub fn find_model(catalog: &Vec<String>, id: &str) -> (place: Option<usize>)
    ensures
        match place {
            Some(i) => {
                &&& i < catalog@.len()
                &&& catalog@[i as int]@ == id@
                &&& forall|k: int| 0 <= k < i ==> (#[trigger] catalog@[k])@ != id@
            },
            None => forall|k: int| 0 <= k < catalog@.len() ==> (#[trigger] catalog@[k])@ != id@,
        },
{
    let mut i: usize = 0;
    while i < catalog.len()
        invariant
            i <= catalog@.len(),
            forall|k: int| 0 <= k < i ==> (#[trigger] catalog@[k])@ != id@,
        decreases catalog@.len() - i,
    {
        if same_text(catalog[i].as_str(), id) {
            return Some(i);
        }
        i = i + 1;
    }
    None
}

/// Whether `place` is where a catalog first holds `id`.
pub open spec fn found_at(catalog: Seq<String>, id: Seq<char>, place: int) -> bool {
    &&& 0 <= place < catalog.len()
    &&& catalog[place]@ == id
    &&& forall|k: int| 0 <= k < place ==> (#[trigger] catalog[k])@ != id
}

/// Whether a catalog holds `id`.
pub open spec fn known(catalog: Seq<String>, id: Seq<char>) -> bool {
    exists|k: int| 0 <= k < catalog.len() && (#[trigger] catalog[k])@ == id
}

/// The message for an unknown model.
pub open spec fn unknown_text(id: Seq<char>, catalog: Seq<String>) -> Seq<char> {
    "unknown model `"@ + id + "`. Available: "@ + listed(batch::texts(catalog))
}

/// Resolves a selection to places in the catalog. An empty selection means
/// every model; the first unknown name is reported with the valid ones.
pub fn select(ids: &Vec<String>, catalog: &Vec<String>) -> (result: Result<Vec<usize>, String>)
    ensures
        match result {
            Ok(places) => if ids@.len() == 0 {
                places@ == Seq::new(catalog@.len(), |i: int| i as usize)
            } else {
                &&& places@.len() == ids@.len()
                &&& forall|i: int|
                    0 <= i < ids@.len() ==> found_at(
                        catalog@,
                        (#[trigger] ids@[i])@,
                        places@[i] as int,
                    )
            },
            Err(message) => exists|i: int| {
                &&& 0 <= i < ids@.len()
                &&& !known(catalog@, (#[trigger] ids@[i])@)
                &&& forall|k: int| 0 <= k < i ==> known(catalog@, (#[trigger] ids@[k])@)
                &&& message@ == unknown_text(ids@[i]@, catalog@)
            },
        },
{
    let mut places: Vec<usize> = Vec::new();
    if ids.len() == 0 {
        while places.len() < catalog.len()
            invariant
                places@.len() <= catalog@.len(),
                places@ == Seq::new(places@.len(), |i: int| i as usize),
            decreases catalog@.len() - places@.len(),
        {
            let next: usize = places.len();
            places.push(next);
            assert(places@ =~= Seq::new(places@.len(), |i: int| i as usize));
        }
        return Ok(places);
    }
    let mut i: usize = 0;
    while i < ids.len()
        invariant
            ids@.len() > 0,
            i <= ids@.len(),
            places@.len() == i,
            forall|k: int|
                0 <= k < i ==> found_at(catalog@, (#[trigger] ids@[k])@, places@[k] as int),
        decreases ids@.len() - i,
    {
        match find_model(catalog, ids[i].as_str()) {
            Some(place) => {
                places.push(place);
            },
            None => {
                let mut message = "unknown model `".to_owned();
                message.append(ids[i].as_str());
                message.append("`. Available: ");
                let names: String = join_names(catalog);
                message.append(names.as_str());
                assert forall|k: int| 0 <= k < i implies known(
                    catalog@,
                    (#[trigger] ids@[k])@,
                ) by {
                    assert(catalog@[places@[k] as int]@ == ids@[k]@);
                }
                assert(!known(catalog@, ids@[i as int]@));
                return Err(message);
            },
        }
        i = i + 1;
    }
    Ok(places)
}

/// The models that are there, behind the bypass that always is.
pub open spec fn available(catalog: Seq<Seq<char>>, present: Seq<bool>) -> Seq<Seq<char>>
    decreases catalog.len(),
{
    if catalog.len() == 0 {
        seq!["passthrough"@]
    } else if present[catalog.len() - 1] {
        available(catalog.drop_last(), present).push(catalog.last())
    } else {
        available(catalog.drop_last(), present)
    }
}

/// The default selection: the bypass and every model that is there, in catalog
/// order.
pub fn default_model_ids(catalog: &Vec<String>, present: &Vec<bool>) -> (ids: Vec<String>)
    requires
        catalog@.len() == present@.len(),
    ensures
        batch::texts(ids@) == available(batch::texts(catalog@), present@),
{
    let mut ids: Vec<String> = Vec::new();
    ids.push("passthrough".to_owned());
    let ghost all = batch::texts(catalog@);
    let mut i: usize = 0;
    assert(batch::texts(ids@) =~= available(all.take(0), present@));
    while i < catalog.len()
        invariant
            i <= catalog@.len(),
            catalog@.len() == present@.len(),
            all == batch::texts(catalog@),
            batch::texts(ids@) == available(all.take(i as int), present@),
        decreases catalog@.len() - i,
    {
        let ghost before = ids@;
        proof {
            assert(all.take(i + 1).drop_last() =~= all.take(i as int));
            assert(all.take(i + 1).last() == catalog@[i as int]@);
        }
        if present[i] {
            ids.push(catalog[i].as_str().to_owned());
            assert(batch::texts(ids@) =~= batch::texts(before).push(catalog@[i as int]@));
        }
        i = i + 1;
    }
    assert(all.take(i as int) =~= all);
    ids
}

/// What fetching ends with: the failures by name, if there are any.
pub fn fetch_verdict(failures: &Vec<String>) -> (result: Result<(), String>)
    ensures
        match result {
            Ok(()) => failures@.len() == 0,
            Err(message) => failures@.len() > 0 && message@ == "failed to fetch: "@ + listed(
                batch::texts(failures@),
            ),
        },
{
    if failures.len() == 0 {
        return Ok(());
    }
    let mut message = "failed to fetch: ".to_owned();
    let names: String = join_names(failures);
    message.append(names.as_str());
    Err(message)
}

/// What a comparison ends with: how many models were written, and where.
pub fn written_summary(models: usize, directory: &str) -> (line: String)
    ensures
        line@ == text::decimal(models as nat) + (if models == 1 {
            " model written to "@
        } else {
            " models written to "@
        }) + directory@,
{
    let mut line = "".to_owned();
    proof {
        reveal_strlit("");
    }
    push_decimal(&mut line, models as u64);
    assert(line@ =~= text::decimal(models as nat));
    if models == 1 {
        line.append(" model written to ");
    } else {
        line.append(" models written to ");
    }
    line.append(directory);
    line
}

/// Bytes between two progress lines: 4 MiB.
pub const REDRAW_STEP: u64 = 4_194_304;

/// Whether the progress line is drawn again: every few megabytes, so that a
/// slow link does not flood the terminal, and at the end.
pub fn should_redraw(downloaded: u64, last_reported: u64, total: Option<u64>) -> (redraw: bool)
    requires
        last_reported <= downloaded,
    ensures
        redraw == (downloaded - last_reported >= REDRAW_STEP || total == Some(downloaded)),
{
    if downloaded - last_reported >= REDRAW_STEP {
        return true;
    }
    match total {
        Some(all) => all == downloaded,
        None => false,
    }
}

/// What verifying ends with.
pub fn verify_summary(checked: usize, skipped: usize) -> (line: String)
    ensures
        line@ == text::decimal(checked as nat) + " verified, "@ + text::decimal(skipped as nat)
            + " not downloaded"@,
{
    let mut line = "".to_owned();
    proof {
        reveal_strlit("");
    }
    push_decimal(&mut line, checked as u64);
    assert(line@ =~= text::decimal(checked as nat));
    line.append(" verified, ");
    push_decimal(&mut line, skipped as u64);
    line.append(" not downloaded");
    line
}

/// One line of the catalog listing.
pub open spec fn catalog_text(
    id: Seq<char>,
    name: Seq<char>,
    rate: u32,
    kind: Seq<char>,
    present: bool,
) -> Seq<char> {
    text::left_aligned(id, 18) + " "@ + text::left_aligned(name, 28) + " "@ + text::right_aligned(
        text::decimal((rate / 1000) as nat) + " k"@,
        6,
    ) + "  "@ + text::left_aligned(kind, 20) + " "@ + (if present {
        "present"@
    } else {
        "not downloaded"@
    })
}

/// One line of the catalog listing.
pub fn catalog_line(id: &str, name: &str, rate: u32, kind: &str, present: bool) -> (line: String)
    ensures
        line@ == catalog_text(id@, name@, rate, kind@, present),
{
    let mut shown = "".to_owned();
    let mut line = "".to_owned();
    proof {
        reveal_strlit("");
    }
    push_decimal(&mut shown, (rate / 1000) as u64);
    assert(shown@ =~= text::decimal((rate / 1000) as nat));
    shown.append(" k");
    push_left(&mut line, id, 18);
    assert(line@ =~= text::left_aligned(id@, 18));
    line.append(" ");
    push_left(&mut line, name, 28);
    line.append(" ");
    push_right(&mut line, shown.as_str(), 6);
    line.append("  ");
    push_left(&mut line, kind, 20);
    line.append(" ");
    if present {
        line.append("present");
    } else {
        line.append("not downloaded");
    }
    line
}

/// Number of samples of the synthetic probe.
pub fn probe_length(rate: u32, seconds: u32) -> (length: u32)
    requires
        rate * seconds <= u32::MAX,
    ensures
        length == rate * seconds,
{
    rate * seconds
}

/// The spacing of double-precision numbers at `number`, from `unit` up.
pub open spec fn double_spacing(number: int, unit: int) -> int
    decreases number - unit,
{
    if unit <= 0 || number < 0x20_0000_0000_0000 * unit {
        unit
    } else {
        double_spacing(number, 2 * unit)
    }
}

/// The double-precision number nearest to a count.
pub open spec fn as_double(number: int) -> int {
    let unit = double_spacing(number, 1);
    single::nearest_even(number, unit) * unit
}

/// A byte count for humans: a count below 1024 as it is, others in the largest
/// unit that leaves at least one, with one decimal.
pub open spec fn bytes_text(bytes: u64) -> Seq<char> {
    let value = as_double(bytes as int);
    if value < 1024 {
        text::decimal(bytes as nat) + " B"@
    } else if value < 1_048_576 {
        tenths_text(single::nearest_even(10 * value, 1024)) + " KiB"@
    } else if value < 1_073_741_824 {
        tenths_text(single::nearest_even(10 * value, 1_048_576)) + " MiB"@
    } else {
        tenths_text(single::nearest_even(10 * value, 1_073_741_824)) + " GiB"@
    }
}

/// A number of tenths with one decimal.
pub open spec fn tenths_text(tenths: int) -> Seq<char> {
    text::decimal((tenths / 10) as nat) + "."@ + text::decimal((tenths % 10) as nat)
}

/// The double-precision number nearest to a count.
fn to_double(number: u64) -> (value: u128)
    ensures
        value == as_double(number as int),
        value <= 0x1_0000_0000_0000_0000,
{
    let mut unit: u128 = 1;
    while number as u128 >= 0x20_0000_0000_0000 * unit
        invariant
            1 <= unit <= 2048,
            double_spacing(number as int, 1) == double_spacing(number as int, unit as int),
            unit == 1 || number >= 0x10_0000_0000_0000 * unit,
            unit == 1 || unit == 2 || unit == 4 || unit == 8 || unit == 16 || unit == 32 || unit
                == 64 || unit == 128 || unit == 256 || unit == 512 || unit == 1024 || unit == 2048,
        decreases 4096 - unit,
    {
        unit = 2 * unit;
    }
    assert(double_spacing(number as int, unit as int) == unit);
    let steps: u128 = round_nearest_even(number as u128, unit);
    proof {
        lemma_steps_bounded(number as int, unit as int);
        assert(steps * unit <= 0x20_0000_0000_0000 * 2048) by (nonlinear_arith)
            requires
                steps <= 0x20_0000_0000_0000,
                unit <= 2048,
        ;
    }
    steps * unit
}

/// A count below the precision limit of a spacing rounds to at most that limit.
proof fn lemma_steps_bounded(number: int, unit: int)
    requires
        0 <= number < 0x20_0000_0000_0000 * unit,
        unit > 0,
    ensures
        single::nearest_even(number, unit) <= 0x20_0000_0000_0000,
{
    assert(number / unit < 0x20_0000_0000_0000) by (nonlinear_arith)
        requires
            0 <= number < 0x20_0000_0000_0000 * unit,
            unit > 0,
    ;
}

/// Appends a number of tenths with one decimal.
fn push_tenths(line: &mut String, tenths: u64)
    ensures
        final(line)@ == old(line)@ + tenths_text(tenths as int),
{
    push_decimal(line, tenths / 10);
    line.append(".");
    push_decimal(line, tenths % 10);
    assert(line@ =~= old(line)@ + tenths_text(tenths as int));
}

/// Formats a byte count for humans.
pub fn human_bytes(bytes: u64) -> (shown: String)
    ensures
        shown@ == bytes_text(bytes),
{
    let value: u128 = to_double(bytes);
    let mut shown = "".to_owned();
    proof {
        reveal_strlit("");
    }
    if value < 1024 {
        push_decimal(&mut shown, bytes);
        assert(shown@ =~= text::decimal(bytes as nat));
        shown.append(" B");
        return shown;
    }
    let divisor: u128 = if value < 1_048_576 {
        1024
    } else if value < 1_073_741_824 {
        1_048_576
    } else {
        1_073_741_824
    };
    let tenths: u128 = round_nearest_even(10 * value, divisor);
    proof {
        assert(tenths <= 0x10_0000_0000_0000) by {
            assert(10 * value <= 0xa_0000_0000_0000_0000);
            if divisor == 1024 {
                assert((10 * value) as int / 1024 <= 10_485_760);
            } else if divisor == 1_048_576 {
                assert((10 * value) as int / 1_048_576 <= 10_737_418_240);
            } else {
                assert((10 * value) as int / 1_073_741_824 <= 0x2_8000_0000_0);
            }
        }
    }
    push_tenths(&mut shown, tenths as u64);
    assert(shown@ =~= tenths_text(tenths as int));
    if divisor == 1024 {
        shown.append(" KiB");
    } else if divisor == 1_048_576 {
        shown.append(" MiB");
    } else {
        shown.append(" GiB");
    }
    shown
}

/// Whether a comparison goes on to the next model after a run.
pub fn goes_on(failed: bool, keep_going: bool) -> (on: bool)
    ensures
        on == (!failed || keep_going),
{
    !failed || keep_going
}

/// The run whose failure a comparison reports: the first that failed.
pub fn first_failure(failed: &[bool]) -> (run: Option<usize>)
    ensures
        match run {
            Some(index) => {
                &&& index < failed@.len()
                &&& failed@[index as int]
                &&& forall|i: int| 0 <= i < index ==> !(#[trigger] failed@[i])
            },
            None => forall|i: int| 0 <= i < failed@.len() ==> !(#[trigger] failed@[i]),
        },
{
    let mut index: usize = 0;
    while index < failed.len()
        invariant
            index <= failed@.len(),
            forall|i: int| 0 <= i < index ==> !(#[trigger] failed@[i]),
        decreases failed@.len() - index,
    {
        if failed[index] {
            return Some(index);
        }
        index = index + 1;
    }
    None
}

/// Names in a row can be told apart again: cut at the commas, the list gives the names,
/// each behind the first with a space before it.
pub proof fn law_listed_names_can_be_told_apart(items: Seq<Seq<char>>)
    requires
        items.len() > 0,
        forall|k: int| 0 <= k < items.len() ==> text::free_of(#[trigger] items[k], ','),
    ensures
        text::split(listed(items), ',') == Seq::new(
            items.len(),
            |k: int|
                if k == 0 {
                    items[0]
                } else {
                    seq![' '] + items[k]
                },
        ),
{
    let parts = Seq::new(
        items.len(),
        |k: int|
            if k == 0 {
                items[0]
            } else {
                seq![' '] + items[k]
            },
    );
    lemma_listed_is_joined(items, parts);
    assert forall|k: int| 0 <= k < parts.len() implies text::free_of(
        #[trigger] parts[k],
        ',',
    ) by {
        let item = items[k];
        assert(text::free_of(item, ','));
        if k > 0 {
            assert forall|i: int| 0 <= i < parts[k].len() implies #[trigger] parts[k][i]
                != ',' by {
                if i > 0 {
                    assert(item[i - 1] != ',');
                }
            }
        }
    }
    text::law_split_undoes_joining(parts, ',');
}

proof fn lemma_listed_is_joined(items: Seq<Seq<char>>, parts: Seq<Seq<char>>)
    requires
        items.len() > 0,
        parts.len() == items.len(),
        parts[0] == items[0],
        forall|k: int| 0 < k < items.len() ==> #[trigger] parts[k] == seq![' '] + items[k],
    ensures
        listed(items) == text::joined_by(parts, ','),
    decreases items.len(),
{
    if items.len() > 1 {
        let last = items.len() - 1;
        lemma_listed_is_joined(items.drop_last(), parts.drop_last());
        assert(parts[last] == seq![' '] + items[last]);
        reveal_strlit(", ");
        assert(listed(items) =~= text::joined_by(parts, ','));
    }
}

/// How many of the first `count` models are there.
pub open spec fn present_before(present: Seq<bool>, count: int) -> nat
    decreases count,
{
    if count <= 0 {
        0
    } else if present[count - 1] {
        present_before(present, count - 1) + 1
    } else {
        present_before(present, count - 1)
    }
}

/// The default selection begins with the bypass; behind it stands every model that is
/// there, in the order of the catalog, and no other.
pub proof fn law_default_selection_is_what_is_there(
    catalog: Seq<Seq<char>>,
    present: Seq<bool>,
    i: int,
)
    requires
        present.len() >= catalog.len(),
    ensures
        available(catalog, present).len() == 1 + present_before(present, catalog.len() as int),
        available(catalog, present)[0] == "passthrough"@,
        0 <= i < catalog.len() && present[i] ==> available(catalog, present)[1
            + present_before(present, i) as int] == catalog[i],
        0 <= i < catalog.len() && present[i] ==> present_before(present, i) < present_before(
            present,
            catalog.len() as int,
        ),
    decreases catalog.len(),
{
    if catalog.len() > 0 {
        law_default_selection_is_what_is_there(catalog.drop_last(), present, i);
    }
}

/// A count below the precision of a double is that number.
proof fn lemma_small_counts_are_exact(number: int)
    requires
        0 <= number < 0x20_0000_0000_0000,
    ensures
        as_double(number) == number,
{
    assert(double_spacing(number, 1) == 1);
    vstd::arithmetic::div_mod::lemma_div_basics(number);
}

/// A byte count for humans says how many there are: below 1024 exactly, and above to
/// the nearest tenth of the largest unit that leaves at least one.
pub proof fn law_byte_counts_are_near(bytes: u64) -> (tenths: int)
    requires
        bytes < 0x20_0000_0000_0000,
    ensures
        bytes < 1024 ==> bytes_text(bytes) == text::decimal(bytes as nat) + " B"@,
        1024 <= bytes < 1024 * 1024 ==> bytes_text(bytes) == tenths_text(tenths) + " KiB"@ && -1024
            <= 2 * (tenths * 1024 - 10 * bytes) <= 1024,
        1024 * 1024 <= bytes < 1024 * 1024 * 1024 ==> bytes_text(bytes) == tenths_text(tenths)
            + " MiB"@ && -1024 * 1024 <= 2 * (tenths * (1024 * 1024) - 10 * bytes) <= 1024 * 1024,
        1024 * 1024 * 1024 <= bytes ==> bytes_text(bytes) == tenths_text(tenths) + " GiB"@ && -1024
            * 1024 * 1024 <= 2 * (tenths * (1024 * 1024 * 1024) - 10 * bytes) <= 1024 * 1024
            * 1024,
{
    lemma_small_counts_are_exact(bytes as int);
    let unit: int = if bytes < 1024 * 1024 {
        1024
    } else if bytes < 1024 * 1024 * 1024 {
        1_048_576
    } else {
        1_073_741_824
    };
    let n = 10 * bytes as int;
    vstd::arithmetic::div_mod::lemma_fundamental_div_mod(n, unit);
    vstd::arithmetic::div_mod::lemma_mod_bound(n, unit);
    single::nearest_even(n, unit)
}

/// A number of tenths has its whole part before the point and one digit behind it.
pub proof fn law_tenths_have_one_decimal(tenths: int)
    requires
        tenths >= 0,
    ensures
        ({
            let shown = text::split(tenths_text(tenths), '.');
            &&& shown.len() == 2
            &&& shown[1].len() == 1
            &&& 10 * text::decimal_value(shown[0]) + text::decimal_value(shown[1]) == tenths
        }),
{
    let whole = text::decimal((tenths / 10) as nat);
    let part = text::decimal((tenths % 10) as nat);
    text::law_decimal_reads_back((tenths / 10) as nat);
    text::law_decimal_reads_back((tenths % 10) as nat);
    let parts = seq![whole, part];
    reveal_strlit(".");
    assert forall|i: int| 0 <= i < whole.len() implies #[trigger] whole[i] != '.' by {
        assert(text::is_digit(whole[i]));
    }
    assert forall|i: int| 0 <= i < part.len() implies #[trigger] part[i] != '.' by {
        assert(text::is_digit(part[i]));
    }
    assert(parts.drop_last() =~= seq![whole]);
    assert(text::joined_by(parts.drop_last(), '.') == whole);
    assert(text::joined_by(parts, '.') =~= tenths_text(tenths));
    assert forall|k: int| 0 <= k < parts.len() implies text::free_of(
        #[trigger] parts[k],
        '.',
    ) by {
        if k == 0 {
        } else {
        }
    }
    text::law_split_undoes_joining(parts, '.');
}

/// A line of the catalog can be read back where its texts are words: the identifier,
/// the name, the rate in kilohertz, the kind, and whether the model is there.
pub proof fn law_catalog_lines_read_back(
    id: Seq<char>,
    name: Seq<char>,
    rate: u32,
    kind: Seq<char>,
    present: bool,
)
    requires
        text::is_word(id),
        text::is_word(name),
        text::is_word(kind),
    ensures
        ({
            let said = text::words(catalog_text(id, name, rate, kind, present));
            &&& said.len() == (if present {
                6int
            } else {
                7
            })
            &&& said[0] == id
            &&& said[1] == name
            &&& said[2] == text::decimal((rate / 1000) as nat)
            &&& said[3] == "k"@
            &&& said[4] == kind
            &&& present ==> said[5] == "present"@
            &&& !present ==> said[5] == "not"@ && said[6] == "downloaded"@
        }),
{
    reveal_strlit(" ");
    reveal_strlit("  ");
    reveal_strlit(" k");
    reveal_strlit("k");
    reveal_strlit("present");
    reveal_strlit("not");
    reveal_strlit("downloaded");
    reveal_strlit("not downloaded");
    let empty = Seq::<char>::empty();
    let first = empty + text::left_aligned(id, 18) + " "@;
    text::lemma_left_column(empty, id, 18);
    let second = first + text::left_aligned(name, 28) + " "@;
    text::lemma_left_column(first, name, 28);
    let number = text::decimal((rate / 1000) as nat);
    text::law_decimal_reads_back((rate / 1000) as nat);
    assert forall|i: int| 0 <= i < number.len() implies #[trigger] number[i] != ' ' by {
        assert(text::is_digit(number[i]));
    }
    let gap = text::spaces(6 - (number + " k"@).len());
    text::lemma_spaces_add_no_word(second, gap);
    if gap.len() == 0 {
        assert(second + gap =~= second);
    }
    text::lemma_one_more_word(second + gap, number);
    text::lemma_spaces_add_no_word(second + gap + number, " "@);
    text::lemma_one_more_word(second + gap + number + " "@, "k"@);
    let third = second + gap + number + " "@ + "k"@ + "  "@;
    text::lemma_spaces_add_no_word(second + gap + number + " "@ + "k"@, "  "@);
    text::lemma_left_column(third, kind, 20);
    let fourth = third + text::left_aligned(kind, 20) + " "@;
    if present {
        text::lemma_one_more_word(fourth, "present"@);
        assert(catalog_text(id, name, rate, kind, present) =~= fourth + "present"@);
    } else {
        text::lemma_one_more_word(fourth, "not"@);
        text::lemma_spaces_add_no_word(fourth + "not"@, " "@);
        text::lemma_one_more_word(fourth + "not"@ + " "@, "downloaded"@);
        assert(catalog_text(id, name, rate, kind, present) =~= fourth + "not"@ + " "@
            + "downloaded"@);
    }
}

} // verus!
