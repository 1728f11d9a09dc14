use vstd::prelude::*;

verus! {

/// Number of entries in the character table: code points `0..TABLE_SIZE`.
pub const TABLE_SIZE: u32 = 128;

/// Error returned when a bound lies outside the character table.
#[derive(Debug, Clone, Copy, PartialEq, Eq, Structural)]
pub struct InvalidRange;

/// Whether `c` is an entry of the character table.
pub open spec fn in_table(c: char) -> bool {
    (c as u32) < TABLE_SIZE
}

/// Number of characters from `high` down to `low`, both included;
/// zero when `low` comes after `high`.
pub open spec fn line_count(low: char, high: char) -> nat {
    if (low as int) <= (high as int) {
        (high as int - low as int + 1) as nat
    } else {
        0
    }
}

/// The characters from `high` down to `low`, one code point apart.
pub open spec fn descending_chars(low: char, high: char) -> Seq<char> {
    Seq::new(line_count(low, high), |i: int| (high as int - i) as char)
}

/// The characters from `low` up to `high`, one code point apart.
pub open spec fn ascending_chars(low: char, high: char) -> Seq<char> {
    Seq::new(line_count(low, high), |i: int| (low as int + i) as char)
}

/// What a request for the range `low..=high` yields: the descending
/// characters when both bounds are in the table, else `InvalidRange`.
pub open spec fn range_outcome(low: char, high: char) -> Result<Seq<char>, InvalidRange> {
    if in_table(low) && in_table(high) {
        Ok(descending_chars(low, high))
    } else {
        Err(InvalidRange)
    }
}

/// The characters from `high` down to `low`, both included, in the order in
/// which they are printed. An inverted range (`low > high`) is empty.
/// Fails with `InvalidRange` when either bound is outside the table.
pub fn descending_range(low: char, high: char) -> (r: Result<Vec<char>, InvalidRange>)
    ensures
        r is Ok <==> in_table(low) && in_table(high),
        r matches Ok(v) ==> range_outcome(low, high) == Ok::<Seq<char>, InvalidRange>(v@),
        r matches Err(e) ==> range_outcome(low, high) == Err::<Seq<char>, InvalidRange>(e),
{
    let lo: u32 = low as u32;
    let hi: u32 = high as u32;
    if lo >= TABLE_SIZE || hi >= TABLE_SIZE {
        return Err(InvalidRange);
    }
    let mut out: Vec<char> = Vec::new();
    let count: u32 = if lo <= hi { hi - lo + 1 } else { 0 };
    let mut i: u32 = 0;
    while i < count
        invariant
            lo == low as u32,
            hi == high as u32,
            lo < TABLE_SIZE,
            hi < TABLE_SIZE,
            count == line_count(low, high),
            i <= count,
            out@.len() == i,
            forall|j: int| 0 <= j < i ==> #[trigger] out@[j] == (hi - j) as char,
        decreases count - i,
    {
        out.push(((hi - i) as u8) as char);
        i = i + 1;
    }
    assert(out@ =~= descending_chars(low, high));
    Ok(out)
}

/// The lines of the fixed range from `'a'` down to `'Z'`: the lower-case
/// `a` stands after the upper-case `Z` in the table, so the range is walked
/// from `'a'` (its upper bound) to `'Z'` (its lower bound).
pub fn a2z_descending() -> (r: Vec<char>)
    ensures
        r@ == descending_chars('Z', 'a'),
        r@ == seq!['a', '`', '_', '^', ']', '\\', '[', 'Z'],
{
    proof {
        assert(descending_chars('Z', 'a') =~= seq!['a', '`', '_', '^', ']', '\\', '[', 'Z']);
    }
    match descending_range('Z', 'a') {
        Ok(v) => v,
        Err(_) => Vec::new(),
    }
}

/// A range whose bounds are in order has one line for each code point from
/// `low` to `high`.
pub proof fn lemma_line_count(low: char, high: char)
    requires
        in_table(low),
        in_table(high),
        low as int <= high as int,
    ensures
        descending_chars(low, high).len() == high as int - low as int + 1,
{
}

/// The lines of a range whose bounds are in order start at `high`, end at
/// `low`, and strictly decrease in code point from each line to the next.
pub proof fn lemma_strictly_decreasing(low: char, high: char)
    requires
        in_table(low),
        in_table(high),
        low as int <= high as int,
    ensures
        descending_chars(low, high)[0] == high,
        descending_chars(low, high).last() == low,
        forall|i: int, j: int|
            0 <= i < j < descending_chars(low, high).len() ==> (#[trigger] descending_chars(
                low,
                high,
            )[i] as int) > (#[trigger] descending_chars(low, high)[j] as int),
{
    let s = descending_chars(low, high);
    assert forall|i: int| 0 <= i < s.len() implies #[trigger] s[i] as int == high as int - i by {
        assert((high as int - i) as char as int == high as int - i);
    }
}

/// Two requests with the same bounds yield the same outcome: nothing is
/// carried over from one request to the next.
pub proof fn lemma_calls_agree(
    low: char,
    high: char,
    first: Result<Seq<char>, InvalidRange>,
    second: Result<Seq<char>, InvalidRange>,
)
    requires
        first == range_outcome(low, high),
        second == range_outcome(low, high),
    ensures
        first == second,
{
}

/// Reading the lines back from last to first gives the range in ascending
/// order: the code points `low, low + 1, ..., high`.
pub proof fn lemma_reversed_is_ascending(low: char, high: char)
    requires
        in_table(low),
        in_table(high),
    ensures
        descending_chars(low, high).reverse() == ascending_chars(low, high),
        forall|i: int|
            0 <= i < line_count(low, high) ==> #[trigger] descending_chars(
                low,
                high,
            ).reverse()[i] as int == low as int + i,
{
    let d = descending_chars(low, high);
    let a = ascending_chars(low, high);
    assert(d.reverse() =~= a);
    assert forall|i: int| 0 <= i < line_count(low, high) implies #[trigger] d.reverse()[i] as int
        == low as int + i by {
        assert((low as int + i) as char as int == low as int + i);
    }
}

/// A range whose two bounds are the same character has exactly one line,
/// holding that character.
pub proof fn lemma_single_line(c: char)
    requires
        in_table(c),
    ensures
        descending_chars(c, c) == seq![c],
{
    assert(descending_chars(c, c) =~= seq![c]);
}

/// A range whose lower bound comes after its upper bound has no lines.
pub proof fn lemma_empty_when_inverted(low: char, high: char)
    requires
        in_table(low),
        in_table(high),
        low as int > high as int,
    ensures
        descending_chars(low, high).len() == 0,
        range_outcome(low, high) == Ok::<Seq<char>, InvalidRange>(Seq::empty()),
{
    assert(descending_chars(low, high) =~= Seq::empty());
}

} // verus!
