//! Canonical Huffman codebooks.
//!
//! A DHT segment lists how many codes there are of each length and the
//! symbols in code order.  Written left-justified in 16 bits, the canonical
//! codes tile the numbers from zero upwards: a code of `n` bits owns the next
//! `2^(16 - n)` prefixes.  The codebook is that tiling, one entry for each
//! 16-bit prefix, so that decoding a codeword is one table look-up.

use super::header_spec::byte_sum;
use super::headers::JpegHuffmanTable;
use crate::text::{decimal, push_decimal};
use vstd::arithmetic::div_mod::*;
use vstd::arithmetic::power2::*;
use vstd::prelude::*;
use vstd::string::*;

verus! {

/// Number of 16-bit prefixes.
pub const CODEBOOK_ENTRIES: usize = 65536;

/// What a 16-bit prefix decodes to; `num_bits == 0` marks a prefix that no
/// code begins.
#[derive(Debug, Clone, Copy, PartialEq, Eq, Structural)]
pub struct CanonicalEntry {
    /// Length of the code in bits.
    pub num_bits: u8,
    /// Symbol the code stands for.
    pub symbol: u8,
}

/// Errors emitted by [`CanonicalCodebook::build`].
#[derive(Debug, Clone, Copy, PartialEq, Eq)]
pub enum CanonicalCodebookError {
    /// The table does not list exactly one symbol for each code.
    ValueCountMismatch {
        /// Codes declared.
        codes: usize,
        /// Symbols listed.
        values: usize,
    },
    /// The declared code lengths need more prefixes than there are.
    Oversubscribed {
        /// Length of the first code that does not fit.
        length: u8,
    },
}

impl CanonicalCodebookError {
    pub open spec fn text(self) -> Seq<char> {
        match self {
            CanonicalCodebookError::ValueCountMismatch { codes, values } =>
            "Huffman table declares "@ + decimal(codes as nat) + " codes but lists "@ + decimal(
                values as nat,
            ) + " symbols"@,
            CanonicalCodebookError::Oversubscribed { length } =>
            "Huffman table is oversubscribed at code length "@ + decimal(length as nat),
        }
    }

    /// The error as a sentence.
    pub fn message(&self) -> (s: String)
        ensures
            s@ == self.text(),
    {
        match self {
            CanonicalCodebookError::ValueCountMismatch { codes, values } => {
                let mut s = String::from_str("Huffman table declares ");
                push_decimal(&mut s, *codes as u64);
                s.append(" codes but lists ");
                push_decimal(&mut s, *values as u64);
                s.append(" symbols");
                s
            },
            CanonicalCodebookError::Oversubscribed { length } => {
                let mut s = String::from_str("Huffman table is oversubscribed at code length ");
                push_decimal(&mut s, *length as u64);
                s
            },
        }
    }
}

/// The lengths of all codes of at most `l` bits, in code order.
pub open spec fn code_lengths(num_codes: Seq<u8>, l: nat) -> Seq<u8>
    decreases l,
{
    if l == 0 {
        Seq::empty()
    } else {
        code_lengths(num_codes, (l - 1) as nat) + Seq::new(
            num_codes[l - 1] as nat,
            |i: int| l as u8,
        )
    }
}

/// Number of 16-bit prefixes that a code of `len` bits owns.
pub open spec fn span(len: u8) -> nat {
    pow2((16 - len) as nat)
}

/// First prefix owned by code `k`: what the codes before it own.
pub open spec fn code_start(lens: Seq<u8>, k: nat) -> nat
    decreases k,
{
    if k == 0 {
        0
    } else {
        code_start(lens, (k - 1) as nat) + span(lens[k - 1])
    }
}

/// Whether the first `k` codes fit into the 16-bit prefixes.
pub open spec fn codes_fit(lens: Seq<u8>, k: nat) -> bool {
    code_start(lens, k) <= 65536
}

/// The runs of the first `k` codes, one after the other.
pub open spec fn code_runs(lens: Seq<u8>, values: Seq<u8>, k: nat) -> Seq<CanonicalEntry>
    decreases k,
{
    if k == 0 {
        Seq::empty()
    } else {
        code_runs(lens, values, (k - 1) as nat) + Seq::new(
            span(lens[k - 1]),
            |i: int| (CanonicalEntry { num_bits: lens[k - 1], symbol: values[k - 1] }),
        )
    }
}

/// The codebook: the runs of all codes, then unassigned prefixes.
pub open spec fn codebook_table(lens: Seq<u8>, values: Seq<u8>) -> Seq<CanonicalEntry> {
    let runs = code_runs(lens, values, lens.len());
    runs + Seq::new(
        (65536 - runs.len()) as nat,
        |i: int| (CanonicalEntry { num_bits: 0, symbol: 0 }),
    )
}

/// First code that does not fit, from code `k` on.
pub open spec fn first_misfit(lens: Seq<u8>, k: nat) -> nat
    decreases lens.len() - k,
{
    if k >= lens.len() || !codes_fit(lens, k + 1) {
        k
    } else {
        first_misfit(lens, k + 1)
    }
}

/// What building a codebook from a table in wire form gives.
pub open spec fn built_table(num_codes: Seq<u8>, values: Seq<u8>) -> Result<
    Seq<CanonicalEntry>,
    CanonicalCodebookError,
> {
    let lens = code_lengths(num_codes, 16);
    if values.len() != lens.len() {
        Err(
            CanonicalCodebookError::ValueCountMismatch {
                codes: lens.len() as usize,
                values: values.len() as usize,
            },
        )
    } else if !codes_fit(lens, lens.len()) {
        Err(CanonicalCodebookError::Oversubscribed { length: lens[first_misfit(lens, 0) as int] })
    } else {
        Ok(codebook_table(lens, values))
    }
}

/// A canonical Huffman codebook: one entry for each 16-bit prefix.
#[derive(Debug, Clone)]
pub struct CanonicalCodebook {
    entries: Vec<CanonicalEntry>,
}

impl View for CanonicalCodebook {
    type V = Seq<CanonicalEntry>;

    closed spec fn view(&self) -> Seq<CanonicalEntry> {
        self.entries@
    }
}

/// A table with one entry for each prefix and no code longer than 16 bits.
pub open spec fn table_wf(table: Seq<CanonicalEntry>) -> bool {
    &&& table.len() == 65536
    &&& forall|i: int| 0 <= i < 65536 ==> (#[trigger] table[i]).num_bits <= 16
}

/// The tables of a set of codebooks.
pub open spec fn books_view(books: Seq<Option<CanonicalCodebook>>) -> Seq<
    Option<Seq<CanonicalEntry>>,
> {
    Seq::new(
        books.len(),
        |i: int|
            match books[i] {
                Some(b) => Some(b@),
                None => None,
            },
    )
}

/// Every codebook that is there is well-formed.
pub open spec fn books_wf(books: Seq<Option<CanonicalCodebook>>) -> bool {
    forall|k: int| 0 <= k < books.len() ==> (#[trigger] books[k] matches Some(b) ==> b.wf())
}

impl CanonicalCodebook {
    pub open spec fn wf(&self) -> bool {
        table_wf(self@)
    }

    /// Build the look-up table of a Huffman table in wire form.
    pub fn build(table: &JpegHuffmanTable) -> (book: Result<Self, CanonicalCodebookError>)
        ensures
            match built_table(table.num_codes@, table.values@) {
                Ok(t) => book matches Ok(b) && b@ == t && b.wf(),
                Err(e) => book matches Err(r) && r == e,
            },
    {
        let lens = expand_lengths(&table.num_codes);
        if table.values.len() != lens.len() {
            return Err(
                CanonicalCodebookError::ValueCountMismatch {
                    codes: lens.len(),
                    values: table.values.len(),
                },
            );
        }
        let mut entries: Vec<CanonicalEntry> = Vec::with_capacity(CODEBOOK_ENTRIES);
        let mut k: usize = 0;
        while k < lens.len()
            invariant
                k <= lens@.len(),
                lens@ == code_lengths(table.num_codes@, 16),
                table.values@.len() == lens@.len(),
                forall|i: int| 0 <= i < lens@.len() ==> 1 <= #[trigger] lens@[i] <= 16,
                entries@ == code_runs(lens@, table.values@, k as nat),
                entries@.len() == code_start(lens@, k as nat),
                entries@.len() <= 65536,
                first_misfit(lens@, 0) == first_misfit(lens@, k as nat),
                forall|i: int| 0 <= i < entries@.len() ==> (#[trigger] entries@[i]).num_bits <= 16,
            decreases lens@.len() - k,
        {
            let len: u8 = lens[k];
            let run: usize = run_length(len);
            if CODEBOOK_ENTRIES - entries.len() < run {
                proof {
                    lemma_misfit_later(lens@, (k + 1) as nat, lens@.len());
                }
                return Err(CanonicalCodebookError::Oversubscribed { length: len });
            }
            let entry = CanonicalEntry { num_bits: len, symbol: table.values[k] };
            let ghost before = entries@;
            let mut i: usize = 0;
            while i < run
                invariant
                    i <= run,
                    entries@ == before + Seq::new(i as nat, |j: int| entry),
                decreases run - i,
            {
                entries.push(entry);
                i = i + 1;
                assert(entries@ =~= before + Seq::new(i as nat, |j: int| entry));
            }
            assert(entries@ =~= code_runs(lens@, table.values@, (k + 1) as nat));
            k = k + 1;
        }
        let ghost runs = entries@;
        let none = CanonicalEntry { num_bits: 0, symbol: 0 };
        while entries.len() < CODEBOOK_ENTRIES
            invariant
                runs.len() <= entries@.len() <= 65536,
                entries@ == runs + Seq::new(
                    (entries@.len() - runs.len()) as nat,
                    |j: int| (CanonicalEntry { num_bits: 0, symbol: 0 }),
                ),
                none == (CanonicalEntry { num_bits: 0, symbol: 0 }),
            decreases 65536 - entries@.len(),
        {
            let ghost before = entries@;
            entries.push(none);
            assert(entries@ =~= runs + Seq::new(
                (entries@.len() - runs.len()) as nat,
                |j: int| (CanonicalEntry { num_bits: 0, symbol: 0 }),
            ));
        }
        Ok(CanonicalCodebook { entries })
    }

    /// The entry of a 16-bit prefix.
    #[must_use]
    pub fn lookup(&self, prefix: u16) -> (entry: CanonicalEntry)
        requires
            self.wf(),
        ensures
            entry == self@[prefix as int],
            entry.num_bits <= 16,
    {
        self.entries[prefix as usize]
    }

    /// All entries, in prefix order.
    #[must_use]
    pub fn table(&self) -> (entries: &[CanonicalEntry])
        ensures
            entries@ == self@,
    {
        self.entries.as_slice()
    }
}

/// The code lengths in code order.
fn expand_lengths(num_codes: &[u8; 16]) -> (lens: Vec<u8>)
    ensures
        lens@ == code_lengths(num_codes@, 16),
        lens@.len() == byte_sum(num_codes@),
        forall|i: int| 0 <= i < lens@.len() ==> 1 <= #[trigger] lens@[i] <= 16,
{
    let mut lens: Vec<u8> = Vec::new();
    let mut l: usize = 0;
    while l < 16
        invariant
            l <= 16,
            lens@ == code_lengths(num_codes@, l as nat),
            forall|i: int| 0 <= i < lens@.len() ==> 1 <= #[trigger] lens@[i] <= 16,
        decreases 16 - l,
    {
        let count: u8 = num_codes[l];
        l = l + 1;
        let len: u8 = l as u8;
        let ghost before = lens@;
        let mut i: u8 = 0;
        while i < count
            invariant
                i <= count,
                1 <= len <= 16,
                lens@ == before + Seq::new(i as nat, |j: int| len),
                forall|j: int| 0 <= j < lens@.len() ==> 1 <= #[trigger] lens@[j] <= 16,
            decreases count - i,
        {
            lens.push(len);
            i = i + 1;
            assert(lens@ =~= before + Seq::new(i as nat, |j: int| len));
        }
        assert(lens@ =~= code_lengths(num_codes@, l as nat));
    }
    proof {
        lemma_code_lengths_count(num_codes@, 16);
        assert(num_codes@.take(16) =~= num_codes@);
    }
    lens
}

/// `2^(16 - len)`.
fn run_length(len: u8) -> (run: usize)
    requires
        1 <= len <= 16,
    ensures
        run == span(len),
{
    proof {
        lemma2_to64();
    }
    match len {
        1 => 0x8000,
        2 => 0x4000,
        3 => 0x2000,
        4 => 0x1000,
        5 => 0x800,
        6 => 0x400,
        7 => 0x200,
        8 => 0x100,
        9 => 0x80,
        10 => 0x40,
        11 => 0x20,
        12 => 0x10,
        13 => 8,
        14 => 4,
        15 => 2,
        _ => 1,
    }
}

proof fn lemma_code_lengths_count(num_codes: Seq<u8>, l: nat)
    requires
        l <= num_codes.len(),
    ensures
        code_lengths(num_codes, l).len() == byte_sum(num_codes.take(l as int)),
    decreases l,
{
    if l > 0 {
        lemma_code_lengths_count(num_codes, (l - 1) as nat);
        assert(num_codes.take(l as int).drop_last() =~= num_codes.take(l - 1));
    }
}

/// Starts do not decrease, so a misfit stays one.
proof fn lemma_misfit_later(lens: Seq<u8>, k: nat, n: nat)
    requires
        k <= n,
        !codes_fit(lens, k),
    ensures
        !codes_fit(lens, n),
    decreases n - k,
{
    if k < n {
        lemma_misfit_later(lens, k, (n - 1) as nat);
    }
}

/// Code `k` as the standard generates it: one more than the code before,
/// with zeros appended up to its length.
pub open spec fn canonical_code(lens: Seq<u8>, k: nat) -> nat
    decreases k,
{
    if k == 0 {
        0
    } else {
        (canonical_code(lens, (k - 1) as nat) + 1) * pow2((lens[k as int] - lens[k - 1]) as nat)
    }
}

/// Code lengths as a table declares them: 1 to 16 bits, never decreasing.
pub open spec fn lengths_wf(lens: Seq<u8>) -> bool {
    &&& forall|i: int| 0 <= i < lens.len() ==> 1 <= #[trigger] lens[i] <= 16
    &&& forall|i: int, j: int| 0 <= i <= j < lens.len() ==> lens[i] <= lens[j]
}

/// Code lengths are those of the wire form, in rising order.
pub proof fn lemma_code_lengths_wf(num_codes: Seq<u8>, l: nat)
    requires
        l <= 16,
    ensures
        lengths_wf(code_lengths(num_codes, l)),
        forall|i: int|
            0 <= i < code_lengths(num_codes, l).len() ==> #[trigger] code_lengths(
                num_codes,
                l,
            )[i] <= l,
    decreases l,
{
    if l > 0 {
        lemma_code_lengths_wf(num_codes, (l - 1) as nat);
    }
}

/// The first prefix of a code is the code followed by zeros.
proof fn lemma_start_is_code(lens: Seq<u8>, k: nat)
    requires
        lengths_wf(lens),
        k < lens.len(),
    ensures
        code_start(lens, k) == canonical_code(lens, k) * span(lens[k as int]),
    decreases k,
{
    if k == 0 {
        assert(0 * span(lens[0]) == 0);
    } else {
        let j = (k - 1) as nat;
        lemma_start_is_code(lens, j);
        let c = canonical_code(lens, j);
        let grow = (lens[k as int] - lens[j as int]) as nat;
        lemma_pow2_adds(grow, (16 - lens[k as int]) as nat);
        assert(grow + (16 - lens[k as int]) as nat == (16 - lens[j as int]) as nat);
        let s = span(lens[k as int]) as int;
        let g = pow2(grow) as int;
        assert(c * (g * s) + g * s == ((c + 1) * g) * s) by (nonlinear_arith);
    }
}

/// Entry `x` of the runs lies in the run of the code that owns it.
proof fn lemma_run_entry(lens: Seq<u8>, values: Seq<u8>, n: nat, k: nat, x: int)
    requires
        k < n <= lens.len(),
        code_start(lens, k) <= x < code_start(lens, k + 1),
    ensures
        code_runs(lens, values, n).len() == code_start(lens, n),
        x < code_start(lens, n),
        code_runs(lens, values, n)[x] == (CanonicalEntry {
            num_bits: lens[k as int],
            symbol: values[k as int],
        }),
    decreases n,
{
    lemma_runs_len(lens, values, n);
    lemma_runs_len(lens, values, (n - 1) as nat);
    if k + 1 < n {
        lemma_run_entry(lens, values, (n - 1) as nat, k, x);
    }
}

proof fn lemma_runs_len(lens: Seq<u8>, values: Seq<u8>, n: nat)
    ensures
        code_runs(lens, values, n).len() == code_start(lens, n),
    decreases n,
{
    if n > 0 {
        lemma_runs_len(lens, values, (n - 1) as nat);
    }
}

/// Every prefix below the end of the runs is owned by some code.
proof fn lemma_owner(lens: Seq<u8>, n: nat, x: int) -> (k: nat)
    requires
        0 <= x < code_start(lens, n),
    ensures
        k < n,
        code_start(lens, k) <= x < code_start(lens, k + 1),
    decreases n,
{
    if x < code_start(lens, (n - 1) as nat) {
        lemma_owner(lens, (n - 1) as nat, x)
    } else {
        (n - 1) as nat
    }
}

/// A prefix begins with code `k` exactly if it lies in the run of `k`.
proof fn lemma_prefix_in_run(lens: Seq<u8>, k: nat, x: nat)
    requires
        lengths_wf(lens),
        k < lens.len(),
    ensures
        x / span(lens[k as int]) == canonical_code(lens, k) <==> code_start(lens, k) <= x
            < code_start(lens, k + 1),
{
    lemma_start_is_code(lens, k);
    let s = span(lens[k as int]) as int;
    let c = canonical_code(lens, k) as int;
    lemma_pow2_pos((16 - lens[k as int]) as nat);
    lemma_fundamental_div_mod(x as int, s);
    lemma_mod_bound(x as int, s);
    let q = x as int / s;
    assert(s * q == q * s) by (nonlinear_arith);
    if c * s <= x < c * s + s {
        if q < c {
            assert(q * s + s <= c * s) by (nonlinear_arith)
                requires
                    q < c,
                    s > 0,
            ;
        }
        if q > c {
            assert(q * s >= c * s + s) by (nonlinear_arith)
                requires
                    q > c,
                    s > 0,
            ;
        }
    }
}

/// The codebook decodes every canonical code: a prefix that begins with code
/// `k` yields its length and symbol.
pub proof fn law_lookup_finds_the_code(num_codes: Seq<u8>, values: Seq<u8>, k: nat, prefix: nat)
    requires
        num_codes.len() == 16,
        built_table(num_codes, values) is Ok,
        k < code_lengths(num_codes, 16).len(),
        prefix < 65536,
        prefix / span(code_lengths(num_codes, 16)[k as int]) == canonical_code(
            code_lengths(num_codes, 16),
            k,
        ),
    ensures
        built_table(num_codes, values)->Ok_0[prefix as int] == (CanonicalEntry {
            num_bits: code_lengths(num_codes, 16)[k as int],
            symbol: values[k as int],
        }),
{
    let lens = code_lengths(num_codes, 16);
    lemma_code_lengths_wf(num_codes, 16);
    lemma_prefix_in_run(lens, k, prefix);
    lemma_run_entry(lens, values, lens.len(), k, prefix as int);
}

/// A prefix is unassigned exactly if no canonical code begins it.
pub proof fn law_lookup_misses_only_uncoded_prefixes(
    num_codes: Seq<u8>,
    values: Seq<u8>,
    prefix: nat,
)
    requires
        num_codes.len() == 16,
        built_table(num_codes, values) is Ok,
        prefix < 65536,
    ensures
        built_table(num_codes, values)->Ok_0[prefix as int].num_bits == 0 <==> forall|k: nat|
            k < code_lengths(num_codes, 16).len() ==> prefix / span(
                code_lengths(num_codes, 16)[k as int],
            ) != #[trigger] canonical_code(code_lengths(num_codes, 16), k),
{
    let lens = code_lengths(num_codes, 16);
    lemma_code_lengths_wf(num_codes, 16);
    lemma_runs_len(lens, values, lens.len());
    if prefix < code_start(lens, lens.len()) {
        let k = lemma_owner(lens, lens.len(), prefix as int);
        lemma_prefix_in_run(lens, k, prefix);
        lemma_run_entry(lens, values, lens.len(), k, prefix as int);
        assert(prefix / span(lens[k as int]) == canonical_code(lens, k));
    } else {
        assert forall|k: nat| k < lens.len() implies prefix / span(lens[k as int])
            != #[trigger] canonical_code(lens, k) by {
            lemma_prefix_in_run(lens, k, prefix);
            lemma_starts_ordered(lens, k + 1, lens.len());
        }
    }
}

proof fn lemma_starts_ordered(lens: Seq<u8>, j: nat, k: nat)
    requires
        j <= k,
    ensures
        code_start(lens, j) <= code_start(lens, k),
    decreases k - j,
{
    if j < k {
        lemma_starts_ordered(lens, j, (k - 1) as nat);
    }
}

/// The canonical code is prefix-free: no 16-bit string begins with two of
/// its codes.
pub proof fn law_canonical_code_is_prefix_free(num_codes: Seq<u8>, j: nat, k: nat, prefix: nat)
    requires
        num_codes.len() == 16,
        j < k < code_lengths(num_codes, 16).len(),
    ensures
        !(prefix / span(code_lengths(num_codes, 16)[j as int]) == canonical_code(
            code_lengths(num_codes, 16),
            j,
        ) && prefix / span(code_lengths(num_codes, 16)[k as int]) == canonical_code(
            code_lengths(num_codes, 16),
            k,
        )),
{
    let lens = code_lengths(num_codes, 16);
    lemma_code_lengths_wf(num_codes, 16);
    lemma_prefix_in_run(lens, j, prefix);
    lemma_prefix_in_run(lens, k, prefix);
    lemma_starts_ordered(lens, j + 1, k);
}

/// No code of the table consists of ones alone.
pub open spec fn ones_uncoded(table: Seq<CanonicalEntry>) -> bool {
    forall|x: int|
        0 <= x < 65536 && (#[trigger] table[x]).num_bits > 0 ==> x as nat / span(table[x].num_bits)
            != pow2(table[x].num_bits as nat) - 1
}

/// A codebook has a code of ones alone only if it assigns the prefix of
/// sixteen ones.
pub proof fn law_ones_are_uncoded(num_codes: Seq<u8>, values: Seq<u8>)
    requires
        num_codes.len() == 16,
        built_table(num_codes, values) is Ok,
        built_table(num_codes, values)->Ok_0[65535].num_bits == 0,
    ensures
        ones_uncoded(built_table(num_codes, values)->Ok_0),
{
    let lens = code_lengths(num_codes, 16);
    let table = built_table(num_codes, values)->Ok_0;
    lemma_code_lengths_wf(num_codes, 16);
    assert forall|x: int| 0 <= x < 65536 && (#[trigger] table[x]).num_bits > 0 implies x as nat
        / span(table[x].num_bits) != pow2(table[x].num_bits as nat) - 1 by {
        law_lookup_misses_only_uncoded_prefixes(num_codes, values, x as nat);
        let k = choose|k: nat|
            k < lens.len() && x as nat / span(lens[k as int]) == #[trigger] canonical_code(lens, k);
        law_lookup_finds_the_code(num_codes, values, k, x as nat);
        let len = lens[k as int];
        if x as nat / span(len) == pow2(len as nat) - 1 {
            lemma2_to64();
            lemma_pow2_adds(len as nat, (16 - len) as nat);
            lemma_pow2_pos((16 - len) as nat);
            let s = span(len) as int;
            let q = pow2(len as nat) as int;
            assert((q - 1) * s + (s - 1) == 65535) by (nonlinear_arith)
                requires
                    q * s == 65536,
            ;
            lemma_fundamental_div_mod_converse(65535, s, q - 1, s - 1);
            law_lookup_finds_the_code(num_codes, values, k, 65535);
        }
    }
}

proof fn lemma_lengths_counted(num_codes: Seq<u8>, l: nat, len: u8)
    requires
        l <= 16,
        num_codes.len() == 16,
    ensures
        code_lengths(num_codes, l).filter(|x: u8| x == len).len() == if 1 <= len <= l {
            num_codes[len - 1] as int
        } else {
            0
        },
    decreases l,
{
    let p = |x: u8| x == len;
    if l == 0 {
        reveal(Seq::filter);
    } else {
        lemma_lengths_counted(num_codes, (l - 1) as nat, len);
        let a = code_lengths(num_codes, (l - 1) as nat);
        let b = Seq::new(num_codes[l - 1] as nat, |i: int| l as u8);
        Seq::filter_distributes_over_add(a, b, p);
        lemma_run_filtered(b, l as u8, len);
    }
}

proof fn lemma_run_filtered(run: Seq<u8>, value: u8, len: u8)
    requires
        forall|i: int| 0 <= i < run.len() ==> #[trigger] run[i] == value,
    ensures
        run.filter(|x: u8| x == len).len() == if value == len {
            run.len() as int
        } else {
            0
        },
    decreases run.len(),
{
    reveal(Seq::filter);
    if run.len() > 0 {
        let init = run.drop_last();
        assert forall|i: int| 0 <= i < init.len() implies #[trigger] init[i] == value by {
            assert(init[i] == run[i]);
        }
        lemma_run_filtered(init, value, len);
        assert(run[run.len() - 1] == value);
    }
}

/// A table has as many codes of each length as it declares, the shorter ones
/// first.
pub proof fn law_codes_have_the_declared_lengths(num_codes: Seq<u8>, len: u8)
    requires
        num_codes.len() == 16,
        1 <= len <= 16,
    ensures
        code_lengths(num_codes, 16).filter(|x: u8| x == len).len() == num_codes[len - 1],
        forall|i: int, j: int|
            0 <= i <= j < code_lengths(num_codes, 16).len() ==> code_lengths(num_codes, 16)[i]
                <= code_lengths(num_codes, 16)[j],
{
    lemma_lengths_counted(num_codes, 16, len);
    lemma_code_lengths_wf(num_codes, 16);
}

/// A table is built exactly if it lists one symbol for each code and its
/// codes fit into the code space: a code of `n` bits takes one part in `2^n`
/// of it.
pub proof fn law_tables_that_fit_are_built(num_codes: Seq<u8>, values: Seq<u8>)
    requires
        num_codes.len() == 16,
    ensures
        built_table(num_codes, values) is Ok <==> values.len() == byte_sum(num_codes)
            && code_space(num_codes, 16) <= 65536,
{
    lemma_space(num_codes, 16);
    assert(num_codes.take(16) =~= num_codes);
}

/// What the codes of at most `l` bits take of the 65536 parts of the code
/// space.
pub open spec fn code_space(num_codes: Seq<u8>, l: nat) -> nat
    decreases l,
{
    if l == 0 {
        0
    } else {
        code_space(num_codes, (l - 1) as nat) + num_codes[l - 1] as nat * pow2((16 - l) as nat)
    }
}

proof fn lemma_space(num_codes: Seq<u8>, l: nat)
    requires
        num_codes.len() == 16,
        l <= 16,
    ensures
        code_lengths(num_codes, l).len() == byte_sum(num_codes.take(l as int)),
        code_start(code_lengths(num_codes, l), code_lengths(num_codes, l).len()) == code_space(
            num_codes,
            l,
        ),
    decreases l,
{
    if l > 0 {
        let k = (l - 1) as nat;
        lemma_space(num_codes, k);
        assert(num_codes.take(l as int).drop_last() =~= num_codes.take(k as int));
        let a = code_lengths(num_codes, k);
        let n = num_codes[l - 1] as nat;
        lemma_start_of_run(a, Seq::new(n, |i: int| l as u8), l as u8, n);
    }
}

proof fn lemma_start_of_run(a: Seq<u8>, run: Seq<u8>, len: u8, n: nat)
    requires
        n <= run.len(),
        forall|i: int| 0 <= i < run.len() ==> #[trigger] run[i] == len,
    ensures
        code_start(a + run, a.len() + n) == code_start(a, a.len()) + n * span(len),
    decreases n,
{
    if n == 0 {
        lemma_start_of_prefix(a, run, a.len());
        assert(0 * span(len) == 0) by (nonlinear_arith);
    } else {
        lemma_start_of_run(a, run, len, (n - 1) as nat);
        assert((a + run)[a.len() + n - 1] == run[n - 1]);
        let s = span(len) as int;
        assert((n - 1) * s + s == n * s) by (nonlinear_arith);
    }
}

proof fn lemma_start_of_prefix(a: Seq<u8>, run: Seq<u8>, k: nat)
    requires
        k <= a.len(),
    ensures
        code_start(a + run, k) == code_start(a, k),
    decreases k,
{
    if k > 0 {
        lemma_start_of_prefix(a, run, (k - 1) as nat);
    }
}

} // verus!
