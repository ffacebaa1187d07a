//! The observable state of the page after one step: snapshot record
//! types with plain fields, the navigation-history split, and the
//! parsing of the browser-side transition-hash string.

use vstd::prelude::*;

verus! {

/// One entry of the browser's navigation history.
#[derive(Clone, Debug)]
pub struct NavigationEntry {
    pub id: u32,
    pub title: String,
    pub url: String,
}

/// The navigation history split around the current entry, with
/// `about:blank` entries filtered out of both sides.
#[derive(Clone, Debug)]
pub struct NavigationHistory {
    pub back: Vec<NavigationEntry>,
    pub current: NavigationEntry,
    pub forward: Vec<NavigationEntry>,
}

/// A console message captured between snapshots; only warnings and
/// errors are collected, each argument kept as its JSON text.
#[derive(Clone, Debug)]
pub struct ConsoleEntry {
    pub timestamp_millis: u64,
    pub level: ConsoleEntryLevel,
    pub args: Vec<String>,
}

#[derive(Clone, Copy, Debug, PartialEq, Eq, Structural)]
pub enum ConsoleEntryLevel {
    Warning,
    Error,
}

/// One frame of an exception's stack trace.
#[derive(Clone, Debug)]
pub struct CallFrame {
    pub name: String,
    pub line: u32,
    pub column: u32,
    pub url: String,
}

/// The thrown value of an uncaught exception, with its JSON text.
#[derive(Clone, Debug)]
pub struct ExceptionRemoteObject {
    pub value_type: String,
    pub subtype: Option<String>,
    pub class_name: Option<String>,
    pub description: Option<String>,
    pub value: Option<String>,
}

/// An uncaught exception captured between snapshots.
#[derive(Clone, Debug)]
pub struct Exception {
    pub exception_id: u32,
    pub timestamp_millis: u64,
    pub text: String,
    pub line: u32,
    pub column: u32,
    pub url: Option<String>,
    pub remote_object: Option<ExceptionRemoteObject>,
    pub stacktrace: Option<Vec<CallFrame>>,
}

#[derive(Clone, Copy, Debug, PartialEq, Eq, Structural)]
pub enum ScreenshotFormat {
    Webp,
    Png,
    Jpeg,
}

impl ScreenshotFormat {
    /// The file extension of the format.
    pub fn extension(&self) -> (r: &'static str)
        ensures
            *self is Webp ==> r@ == "webp"@,
            *self is Png ==> r@ == "png"@,
            *self is Jpeg ==> r@ == "jpeg"@,
    {
        match self {
            ScreenshotFormat::Webp => "webp",
            ScreenshotFormat::Png => "png",
            ScreenshotFormat::Jpeg => "jpeg",
        }
    }
}

/// A captured screenshot: opaque bytes in a tagged format.
#[derive(Clone, Debug)]
pub struct Screenshot {
    pub format: ScreenshotFormat,
    pub data: Vec<u8>,
}

/// The per-snapshot coverage delta.
#[derive(Clone, Debug)]
pub struct Coverage {
    pub edges_new: Vec<(u32, u8)>,
}

/// One observable snapshot of the page.
#[derive(Clone, Debug)]
pub struct BrowserState {
    pub timestamp_millis: u64,
    pub url: String,
    pub title: String,
    pub content_type: String,
    pub console_entries: Vec<ConsoleEntry>,
    pub navigation_history: NavigationHistory,
    pub exceptions: Vec<Exception>,
    pub transition_hash: Option<u64>,
    pub coverage: Coverage,
    pub screenshot: Screenshot,
}

/// What the history split reads of an entry.
pub open spec fn entry_view(e: NavigationEntry) -> (u32, Seq<char>, Seq<char>) {
    (e.id, e.title@, e.url@)
}

pub open spec fn entries_view(s: Seq<NavigationEntry>) -> Seq<(u32, Seq<char>, Seq<char>)> {
    s.map_values(|e: NavigationEntry| entry_view(e))
}

/// The entries that are real pages, not `about:blank`.
pub open spec fn real_entries(s: Seq<(u32, Seq<char>, Seq<char>)>) -> Seq<
    (u32, Seq<char>, Seq<char>),
> {
    s.filter(|t: (u32, Seq<char>, Seq<char>)| t.2 != "about:blank"@)
}

/// Keeping or dropping one more entry.
proof fn lemma_real_entries_push(s: Seq<(u32, Seq<char>, Seq<char>)>, x: (u32, Seq<char>, Seq<char>))
    ensures
        real_entries(s.push(x)) == if x.2 != "about:blank"@ {
            real_entries(s).push(x)
        } else {
            real_entries(s)
        },
{
    reveal_with_fuel(Seq::filter, 2);
    assert(s.push(x).drop_last() =~= s);
    assert(s.push(x).last() == x);
}

/// A copy of one entry, field by field.
fn clone_entry(e: &NavigationEntry) -> (r: NavigationEntry)
    ensures
        entry_view(r) == entry_view(*e),
{
    NavigationEntry { id: e.id, title: e.title.clone(), url: e.url.clone() }
}

/// Collects the real entries of `entries[from..to]`.
fn real_entries_range(entries: &Vec<NavigationEntry>, from: usize, to: usize) -> (r: Vec<
    NavigationEntry,
>)
    requires
        from <= to <= entries@.len(),
    ensures
        entries_view(r@) == real_entries(entries_view(entries@).subrange(from as int, to as int)),
{
    let ghost all = entries_view(entries@);
    let mut r: Vec<NavigationEntry> = Vec::new();
    let mut i: usize = from;
    proof {
        reveal_with_fuel(Seq::filter, 2);
        assert(all.subrange(from as int, from as int) =~= Seq::<(u32, Seq<char>, Seq<char>)>::empty());
    }
    while i < to
        invariant
            from <= i <= to <= entries@.len(),
            all == entries_view(entries@),
            entries_view(r@) == real_entries(all.subrange(from as int, i as int)),
        decreases to - i,
    {
        proof {
            assert(all.subrange(from as int, i + 1) =~= all.subrange(from as int, i as int).push(
                all[i as int],
            ));
            lemma_real_entries_push(all.subrange(from as int, i as int), all[i as int]);
        }
        let ghost before = entries_view(r@);
        let chars = crate::chars::str_chars(entries[i].url.as_str());
        let blank = crate::chars::chars_eq(&chars, "about:blank");
        if !blank {
            r.push(clone_entry(&entries[i]));
            proof {
                assert(entries_view(r@) =~= before.push(all[i as int]));
            }
        }
        i = i + 1;
    }
    r
}

/// Splits the navigation history around the current index, dropping
/// `about:blank` entries from the back and forward lists but keeping
/// the current entry whatever it is.
pub fn split_navigation_history(entries: &Vec<NavigationEntry>, current_index: usize) -> (r:
    NavigationHistory)
    requires
        current_index < entries@.len(),
    ensures
        entry_view(r.current) == entries_view(entries@)[current_index as int],
        entries_view(r.back@) == real_entries(
            entries_view(entries@).subrange(0, current_index as int),
        ),
        entries_view(r.forward@) == real_entries(
            entries_view(entries@).subrange(current_index + 1, entries@.len() as int),
        ),
{
    let n = entries.len();
    let back = real_entries_range(entries, 0, current_index);
    let forward = real_entries_range(entries, current_index + 1, n);
    let current = clone_entry(&entries[current_index]);
    NavigationHistory { back, current, forward }
}

/// The numeric value of a digit character; meaningful only on digits.
pub open spec fn digit_val(c: char) -> int {
    c as int - '0' as int
}

pub open spec fn is_digit(c: char) -> bool {
    '0' <= c && c <= '9'
}

pub open spec fn all_digits(s: Seq<char>) -> bool {
    forall|i: int| 0 <= i < s.len() ==> is_digit(#[trigger] s[i])
}

/// The value of a digit string read in base ten.
pub open spec fn dec_val(s: Seq<char>) -> int
    decreases s.len(),
{
    if s.len() == 0 {
        0
    } else {
        dec_val(s.drop_last()) * 10 + digit_val(s.last())
    }
}

proof fn lemma_dec_val_nonneg(s: Seq<char>)
    requires
        all_digits(s),
    ensures
        dec_val(s) >= 0,
    decreases s.len(),
{
    if s.len() > 0 {
        assert forall|i: int| 0 <= i < s.drop_last().len() implies is_digit(
            #[trigger] s.drop_last()[i],
        ) by {
            assert(s.drop_last()[i] == s[i]);
        }
        lemma_dec_val_nonneg(s.drop_last());
    }
}

/// Extending a digit string cannot shrink its value.
proof fn lemma_dec_val_monotone(s: Seq<char>, j: int, k: int)
    requires
        all_digits(s),
        0 <= j <= k <= s.len(),
    ensures
        dec_val(s.take(j)) <= dec_val(s.take(k)),
    decreases k - j,
{
    if j < k {
        lemma_dec_val_monotone(s, j, k - 1);
        let p = s.take(k);
        assert(p.drop_last() =~= s.take(k - 1));
        assert(all_digits(s.take(k - 1))) by {
            assert forall|i: int| 0 <= i < s.take(k - 1).len() implies is_digit(
                #[trigger] s.take(k - 1)[i],
            ) by {
                assert(s.take(k - 1)[i] == s[i]);
            }
        }
        lemma_dec_val_nonneg(s.take(k - 1));
        assert(is_digit(p.last())) by {
            assert(p.last() == s[k - 1]);
        }
        assert(dec_val(s.take(k)) == dec_val(s.take(k - 1)) * 10 + digit_val(p.last()));
        assert(dec_val(s.take(k - 1)) * 10 >= dec_val(s.take(k - 1))) by {
            lemma_dec_val_nonneg(s.take(k - 1));
        }
        assert(digit_val(p.last()) >= 0);
    }
}

/// Parses a decimal string into a 64-bit number: succeeds exactly on
/// non-empty all-digit strings whose value fits.
pub fn parse_decimal_u64(s: &str) -> (r: Option<u64>)
    ensures
        r is Some <==> (s@.len() > 0 && all_digits(s@) && dec_val(s@) <= u64::MAX),
        r matches Some(n) ==> n as int == dec_val(s@),
{
    let cs = crate::chars::str_chars(s);
    let n = cs.len();
    if n == 0 {
        return None;
    }
    let mut value: u64 = 0;
    let mut i: usize = 0;
    while i < n
        invariant
            n == cs@.len(),
            cs@ == s@,
            n > 0,
            0 <= i <= n,
            all_digits(s@.take(i as int)),
            value as int == dec_val(s@.take(i as int)),
        decreases n - i,
    {
        let c = cs[i];
        let d: u64 = match c {
            '0' => 0,
            '1' => 1,
            '2' => 2,
            '3' => 3,
            '4' => 4,
            '5' => 5,
            '6' => 6,
            '7' => 7,
            '8' => 8,
            '9' => 9,
            _ => {
                proof {
                    assert(!is_digit(s@[i as int]));
                }
                return None;
            }
        };
        let next = match value.checked_mul(10) {
            Some(m) => m.checked_add(d),
            None => None,
        };
        proof {
            assert(s@.take(i + 1).drop_last() =~= s@.take(i as int));
            assert(s@.take(i + 1).last() == s@[i as int]);
            assert(is_digit(s@[i as int]));
            assert(d as int == digit_val(s@[i as int]));
            assert forall|k: int| 0 <= k < i + 1 implies is_digit(#[trigger] s@.take(i + 1)[k])
            by {
                assert(s@.take(i + 1)[k] == s@[k]);
            }
        }
        match next {
            Some(v) => {
                value = v;
            }
            None => {
                proof {
                    assert(dec_val(s@.take(i + 1)) > u64::MAX);
                }
                return parse_overflow(s, i);
            }
        }
        i = i + 1;
    }
    proof {
        assert(s@.take(n as int) =~= s@);
    }
    Some(value)
}

/// A digit string that already overflowed at some prefix never fits.
fn parse_overflow(s: &str, i: usize) -> (r: Option<u64>)
    requires
        i < s@.len(),
        dec_val(s@.take(i + 1)) > u64::MAX,
    ensures
        r is Some <==> (s@.len() > 0 && all_digits(s@) && dec_val(s@) <= u64::MAX),
        r matches Some(n) ==> n as int == dec_val(s@),
{
    proof {
        if all_digits(s@) {
            lemma_dec_val_monotone(s@, i + 1, s@.len() as int);
            assert(s@.take(s@.len() as int) =~= s@);
        }
    }
    None
}

} // verus!
