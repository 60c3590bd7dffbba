//! What a process prints about its locks when it ends.
use vstd::prelude::*;

use crate::text;

verus! {

/// The averages of a process, as they are printed.
pub struct ProcessAverages {
    pub critical_ns: String,
    pub outside_ns: String,
    pub outside_ns_elapsed: String,
}

/// A named number, and the end of its line.
pub open spec fn number_line(name: Seq<char>, n: int) -> Seq<char> {
    name + text::decimal(n as nat) + "\n"@
}

pub fn append_number_line(out: &mut String, name: &str, n: u64)
    ensures
        final(out)@ == old(out)@ + number_line(name@, n as int),
{
    let ghost before = out@;
    out.append(name);
    text::append_decimal(out, n);
    out.append("\n");
    assert(out@ =~= before + number_line(name@, n as int));
}

/// A named text, and the end of its line.
pub open spec fn text_line(name: Seq<char>, value: Seq<char>) -> Seq<char> {
    name + value + "\n"@
}

pub fn append_text_line(out: &mut String, name: &str, value: &str)
    ensures
        final(out)@ == old(out)@ + text_line(name@, value@),
{
    let ghost before = out@;
    out.append(name);
    out.append(value);
    out.append("\n");
    assert(out@ =~= before + text_line(name@, value@));
}

/// A number behind its name, on a line that goes on.
pub open spec fn field(name: Seq<char>, n: int) -> Seq<char> {
    name + text::decimal(n as nat)
}

pub fn append_field(out: &mut String, name: &str, n: u64)
    ensures
        final(out)@ == old(out)@ + field(name@, n as int),
{
    let ghost before = out@;
    out.append(name);
    text::append_decimal(out, n);
    assert(out@ =~= before + field(name@, n as int));
}

/// A text behind its name, on a line that goes on.
pub open spec fn text_field(name: Seq<char>, value: Seq<char>) -> Seq<char> {
    name + value
}

pub fn append_text_field(out: &mut String, name: &str, value: &str)
    ensures
        final(out)@ == old(out)@ + text_field(name@, value@),
{
    let ghost before = out@;
    out.append(name);
    out.append(value);
    assert(out@ =~= before + text_field(name@, value@));
}

/// The lines that every report begins with.
pub open spec fn process_text(
    label: Seq<char>,
    averages: ProcessAverages,
    outside_gap_samples: u64,
) -> Seq<char> {
    text_line("stats_label: "@, label) + text_line("avg_critical_ns: "@, averages.critical_ns@)
        + text_line("avg_outside_ns: "@, averages.outside_ns@) + text_line(
        "avg_outside_ns_elapsed: "@,
        averages.outside_ns_elapsed@,
    ) + number_line("outside_ns_unlock_gap_samples: "@, outside_gap_samples as int)
}

pub fn process_lines(label: &str, averages: &ProcessAverages, outside_gap_samples: u64) -> (r:
    String)
    ensures
        r@ == process_text(label@, *averages, outside_gap_samples),
{
    let mut out: String = "".to_owned();
    proof {
        reveal_strlit("");
    }
    append_text_line(&mut out, "stats_label: ", label);
    assert(out@ =~= text_line("stats_label: "@, label@));
    append_text_line(&mut out, "avg_critical_ns: ", averages.critical_ns.as_str());
    append_text_line(&mut out, "avg_outside_ns: ", averages.outside_ns.as_str());
    append_text_line(&mut out, "avg_outside_ns_elapsed: ", averages.outside_ns_elapsed.as_str());
    append_number_line(&mut out, "outside_ns_unlock_gap_samples: ", outside_gap_samples);
    out
}

/// Numbers with a comma between each and the next.
pub open spec fn joined(numbers: Seq<u32>) -> Seq<char>
    decreases numbers.len(),
{
    if numbers.len() == 0 {
        Seq::empty()
    } else if numbers.len() == 1 {
        text::decimal(numbers[0] as nat)
    } else {
        joined(numbers.drop_last()) + ","@ + text::decimal(numbers.last() as nat)
    }
}

pub fn append_joined(out: &mut String, numbers: &Vec<u32>)
    ensures
        final(out)@ == old(out)@ + joined(numbers@),
{
    let ghost before = out@;
    let mut i: usize = 0;
    assert(out@ =~= before + joined(numbers@.take(0)));
    while i < numbers.len()
        invariant
            i <= numbers@.len(),
            out@ == before + joined(numbers@.take(i as int)),
        decreases numbers@.len() - i,
    {
        let ghost shorter = numbers@.take(i as int);
        let ghost longer = numbers@.take(i as int + 1);
        assert(longer.drop_last() =~= shorter);
        if i > 0 {
            out.append(",");
        }
        text::append_decimal(out, numbers[i] as u64);
        assert(out@ =~= before + joined(longer));
        i += 1;
    }
    assert(numbers@.take(i as int) =~= numbers@);
}

/// Numbers that are joined stand between the commas, each as it is written.
pub proof fn law_joined_numbers_stand_between_commas(numbers: Seq<u32>)
    requires
        numbers.len() > 0,
    ensures
        ({
            let pieces = text::split(joined(numbers), ',');
            &&& pieces.len() == numbers.len()
            &&& forall|i: int|
                0 <= i < numbers.len() ==> #[trigger] pieces[i] == text::decimal(numbers[i] as nat)
        }),
    decreases numbers.len(),
{
    let last = text::decimal(numbers.last() as nat);
    text::lemma_decimal(numbers.last() as nat);
    assert forall|i: int| 0 <= i < last.len() implies last[i] != ',' by {
        assert(text::is_digit(last[i]));
    }
    if numbers.len() == 1 {
        text::law_a_text_splits_at_its_separators(last, ',', last);
    } else {
        law_joined_numbers_stand_between_commas(numbers.drop_last());
        reveal_strlit(",");
        assert(","@ =~= seq![',']);
        text::law_a_last_piece_comes_last(joined(numbers.drop_last()), ',', last);
    }
}

} // verus!
