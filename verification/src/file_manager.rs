//! The shared files, each reachable by a short random code.
use vstd::prelude::*;
use vstd::string::*;
use rand::Rng;
use rand::SeedableRng;
use crate::text::push_char;

verus! {

// ---------------------------------------------------------------------------
// Random numbers (rand)
// ---------------------------------------------------------------------------

#[verifier::external_type_specification]
#[verifier::external_body]
pub struct ExStdRng(rand::rngs::StdRng);

/// rand's `SeedableRng::from_rng(OsRng)` for `StdRng`: a generator seeded
/// from the system's random source, or `None` where that source fails
/// (`from_rng` fills the seed through `OsRng::try_fill_bytes` and hands its
/// error back instead of panicking). Nothing is claimed of the seed.
#[verifier::external_body]
fn seeded_rng() -> Option<rand::rngs::StdRng> {
    rand::rngs::StdRng::from_rng(rand::rngs::OsRng).ok()
}

/// rand's `Rng::gen_range(0..bound)`: claimed only to lie in `0..bound`,
/// which is what its documentation promises (it panics on an empty range,
/// which `bound > 0` rules out). Which value comes out is left open.
#[verifier::external_body]
fn gen_index(rng: &mut rand::rngs::StdRng, bound: usize) -> (r: usize)
    requires
        bound > 0,
    ensures
        r < bound,
{
    rng.gen_range(0..bound)
}

// ---------------------------------------------------------------------------
// Codes
// ---------------------------------------------------------------------------

/// The characters of a code: capital letters and digits without the easily
/// confused `I`, `O`, `0` and `1`.
pub open spec fn code_alphabet() -> Seq<char> {
    seq![
        'A', 'B', 'C', 'D', 'E', 'F', 'G', 'H', 'J', 'K', 'L', 'M', 'N', 'P', 'Q', 'R', 'S', 'T',
        'U', 'V', 'W', 'X', 'Y', 'Z', '2', '3', '4', '5', '6', '7', '8', '9',
    ]
}

/// Four characters of the code alphabet.
pub open spec fn is_code(s: Seq<char>) -> bool {
    &&& s.len() == 4
    &&& forall|i: int| 0 <= i < 4 ==> code_alphabet().contains(#[trigger] s[i])
}

/// The code made of the alphabet's characters at four positions.
pub open spec fn code_of(i0: int, i1: int, i2: int, i3: int) -> Seq<char> {
    seq![code_alphabet()[i0], code_alphabet()[i1], code_alphabet()[i2], code_alphabet()[i3]]
}

/// The code whose characters are at positions `i0`, `i1`, `i2`, `i3` of
/// the alphabet (each below 32).
pub fn code_from_indices(i0: usize, i1: usize, i2: usize, i3: usize) -> (r: String)
    requires
        i0 < 32,
        i1 < 32,
        i2 < 32,
        i3 < 32,
    ensures
        r@ == code_of(i0 as int, i1 as int, i2 as int, i3 as int),
        is_code(r@),
{
    let alphabet: Vec<char> = vec![
        'A', 'B', 'C', 'D', 'E', 'F', 'G', 'H', 'J', 'K', 'L', 'M', 'N', 'P', 'Q', 'R', 'S', 'T',
        'U', 'V', 'W', 'X', 'Y', 'Z', '2', '3', '4', '5', '6', '7', '8', '9',
    ];
    assert(alphabet@ =~= code_alphabet());
    let mut code = String::new();
    push_char(&mut code, alphabet[i0]);
    push_char(&mut code, alphabet[i1]);
    push_char(&mut code, alphabet[i2]);
    push_char(&mut code, alphabet[i3]);
    let ghost c = code_of(i0 as int, i1 as int, i2 as int, i3 as int);
    assert(code@ =~= c);
    assert forall|i: int| 0 <= i < 4 implies code_alphabet().contains(#[trigger] c[i]) by {
        let j = if i == 0 {
            i0 as int
        } else if i == 1 {
            i1 as int
        } else if i == 2 {
            i2 as int
        } else {
            i3 as int
        };
        assert(code_alphabet()[j] == c[i]);
    }
    code
}

/// The number of characters of the code alphabet.
pub fn code_alphabet_len() -> (n: usize)
    ensures
        n == code_alphabet().len(),
{
    32
}

/// A random code of four characters, each drawn from the whole alphabet by
/// a generator seeded by the system; `None` where the system's random
/// source fails.
pub fn generate_code() -> (r: Option<String>)
    ensures
        r matches Some(c) ==> is_code(c@),
{
    let mut rng = match seeded_rng() {
        Some(g) => g,
        None => {
            return None;
        },
    };
    let n = code_alphabet_len();
    let i0 = gen_index(&mut rng, n);
    let i1 = gen_index(&mut rng, n);
    let i2 = gen_index(&mut rng, n);
    let i3 = gen_index(&mut rng, n);
    Some(code_from_indices(i0, i1, i2, i3))
}

/// The code numbered `k` (below 2^20): its four base-32 digits, most
/// significant first, pick the characters.
pub open spec fn code_of_index(k: u32) -> Seq<char> {
    code_of(
        ((k >> 15u32) & 31u32) as int,
        ((k >> 10u32) & 31u32) as int,
        ((k >> 5u32) & 31u32) as int,
        (k & 31u32) as int,
    )
}

/// The first code, from number `k` on, that the table does not hold.
pub open spec fn free_from(table: Map<Seq<char>, SharedFileView>, k: nat) -> Option<Seq<char>>
    decreases 1048576 - k,
{
    if k >= 1048576 {
        None
    } else if !table.contains_key(code_of_index(k as u32)) {
        Some(code_of_index(k as u32))
    } else {
        free_from(table, k + 1)
    }
}

/// The first code, in the order of their numbers, that the table does not
/// hold.
pub open spec fn first_free(table: Map<Seq<char>, SharedFileView>) -> Option<Seq<char>> {
    free_from(table, 0)
}

pub open spec fn opt_code(d: Option<String>) -> Option<Seq<char>> {
    match d {
        Some(s) => Some(s@),
        None => None,
    }
}

/// The code chosen from a run of draws (`None` for a draw that failed):
/// the first drawn code that the table does not hold, unless a draw failed
/// before it (`Err(false)`); when every drawn code is taken, the first free
/// code, or `Err(true)` when there is none.
pub open spec fn spec_pick_code(
    table: Map<Seq<char>, SharedFileView>,
    draws: Seq<Option<Seq<char>>>,
) -> Result<Seq<char>, bool>
    decreases draws.len(),
{
    if draws.len() == 0 {
        match first_free(table) {
            Some(c) => Ok(c),
            None => Err(true),
        }
    } else {
        match draws[0] {
            None => Err(false),
            Some(c) => if !table.contains_key(c) {
                Ok(c)
            } else {
                spec_pick_code(table, draws.drop_first())
            },
        }
    }
}

proof fn lemma_digits_below_32(k: u32)
    by (bit_vector)
    ensures
        (k >> 15u32) & 31u32 < 32,
        (k >> 10u32) & 31u32 < 32,
        (k >> 5u32) & 31u32 < 32,
        k & 31u32 < 32,
{
}

proof fn lemma_index_of_digits(j0: u32, j1: u32, j2: u32, j3: u32)
    by (bit_vector)
    requires
        j0 < 32,
        j1 < 32,
        j2 < 32,
        j3 < 32,
    ensures
        ((j0 << 15u32) | (j1 << 10u32) | (j2 << 5u32) | j3) < 1048576,
        (((j0 << 15u32) | (j1 << 10u32) | (j2 << 5u32) | j3) >> 15u32) & 31u32 == j0,
        (((j0 << 15u32) | (j1 << 10u32) | (j2 << 5u32) | j3) >> 10u32) & 31u32 == j1,
        (((j0 << 15u32) | (j1 << 10u32) | (j2 << 5u32) | j3) >> 5u32) & 31u32 == j2,
        ((j0 << 15u32) | (j1 << 10u32) | (j2 << 5u32) | j3) & 31u32 == j3,
{
}

/// Every code has a number below 2^20.
proof fn lemma_every_code_numbered(c: Seq<char>)
    requires
        is_code(c),
    ensures
        exists|k: u32| k < 1048576 && code_of_index(k) == c,
{
    assert(code_alphabet().contains(c[0]));
    assert(code_alphabet().contains(c[1]));
    assert(code_alphabet().contains(c[2]));
    assert(code_alphabet().contains(c[3]));
    let j0 = choose|j: int| 0 <= j < code_alphabet().len() && code_alphabet()[j] == c[0];
    let j1 = choose|j: int| 0 <= j < code_alphabet().len() && code_alphabet()[j] == c[1];
    let j2 = choose|j: int| 0 <= j < code_alphabet().len() && code_alphabet()[j] == c[2];
    let j3 = choose|j: int| 0 <= j < code_alphabet().len() && code_alphabet()[j] == c[3];
    let (u0, u1, u2, u3) = (j0 as u32, j1 as u32, j2 as u32, j3 as u32);
    lemma_index_of_digits(u0, u1, u2, u3);
    let k = (u0 << 15u32) | (u1 << 10u32) | (u2 << 5u32) | u3;
    assert(code_of_index(k) =~= c);
}

/// A code is four one-byte characters, so it always has four bytes.
pub proof fn law_code_has_four_bytes(s: Seq<char>)
    requires
        is_code(s),
    ensures
        vstd::utf8::encode_utf8(s).len() == 4,
{
    assert forall|i: int| 0 <= i < 4 implies (#[trigger] s[i]) as u32 <= 0x7f by {
        let c = s[i];
        assert(code_alphabet().contains(c));
        let j = choose|j: int| 0 <= j < code_alphabet().len() && code_alphabet()[j] == c;
        assert(code_alphabet()[j] as u32 <= 0x7f);
    }
    reveal_with_fuel(vstd::utf8::encode_utf8, 5);
    assert(s.drop_first().drop_first().drop_first().drop_first() =~= Seq::<char>::empty());
}

// ---------------------------------------------------------------------------
// Shared files
// ---------------------------------------------------------------------------

/// A file offered for download.
#[derive(Debug, Clone)]
pub struct SharedFile {
    pub code: String,
    pub file_name: String,
    pub file_path: String,
    pub file_size: u64,
}

/// The plain value of a shared file.
pub ghost struct SharedFileView {
    pub code: Seq<char>,
    pub file_name: Seq<char>,
    pub file_path: Seq<char>,
    pub file_size: u64,
}

impl View for SharedFile {
    type V = SharedFileView;

    open spec fn view(&self) -> SharedFileView {
        SharedFileView {
            code: self.code@,
            file_name: self.file_name@,
            file_path: self.file_path@,
            file_size: self.file_size,
        }
    }
}

/// The name a file is shared under: its own name where it has one that is
/// valid Unicode, else `unknown`.
pub fn display_name(name: Option<&str>) -> (r: String)
    ensures
        r@ == match name {
            Some(n) => n@,
            None => "unknown"@,
        },
{
    match name {
        Some(n) => String::from_str(n),
        None => String::from_str("unknown"),
    }
}

/// A copy of a shared file.
fn copy_file(f: &SharedFile) -> (r: SharedFile)
    ensures
        r@ == f@,
{
    SharedFile {
        code: f.code.clone(),
        file_name: f.file_name.clone(),
        file_path: f.file_path.clone(),
        file_size: f.file_size,
    }
}

/// The table of a sequence of files, keyed by code (a later file wins).
pub open spec fn table_of(s: Seq<SharedFileView>) -> Map<Seq<char>, SharedFileView>
    decreases s.len(),
{
    if s.len() == 0 {
        Map::empty()
    } else {
        table_of(s.drop_last()).insert(s.last().code, s.last())
    }
}

/// No two files of `s` share a code.
pub open spec fn distinct_codes(s: Seq<SharedFileView>) -> bool {
    forall|i: int, j: int|
        0 <= i < s.len() && 0 <= j < s.len() && i != j ==> s[i].code != s[j].code
}

/// The file that a code leads to, if any.
pub open spec fn lookup(table: Map<Seq<char>, SharedFileView>, code: Seq<char>) -> Option<
    SharedFileView,
> {
    if table.contains_key(code) {
        Some(table[code])
    } else {
        None
    }
}

pub open spec fn opt_file_view(f: Option<SharedFile>) -> Option<SharedFileView> {
    match f {
        Some(f) => Some(f@),
        None => None,
    }
}

proof fn lemma_table_of(s: Seq<SharedFileView>)
    requires
        distinct_codes(s),
    ensures
        forall|k: Seq<char>|
            table_of(s).contains_key(k) <==> exists|i: int| 0 <= i < s.len() && #[trigger] s[i].code
                == k,
        forall|i: int| 0 <= i < s.len() ==> table_of(s)[#[trigger] s[i].code] == s[i],
        table_of(s).dom().finite(),
        table_of(s).dom().len() == s.len(),
    decreases s.len(),
{
    if s.len() > 0 {
        let t = s.drop_last();
        assert(distinct_codes(t)) by {
            assert forall|i: int, j: int|
                0 <= i < t.len() && 0 <= j < t.len() && i != j implies t[i].code != t[j].code by {
                assert(t[i] == s[i] && t[j] == s[j]);
            }
        }
        lemma_table_of(t);
        let last = s.last();
        assert(!table_of(t).contains_key(last.code)) by {
            if table_of(t).contains_key(last.code) {
                let i = choose|i: int| 0 <= i < t.len() && #[trigger] t[i].code == last.code;
                assert(s[i] == t[i]);
                assert(s[s.len() - 1] == last);
            }
        }
        assert forall|k: Seq<char>|
            table_of(s).contains_key(k) <==> exists|i: int| 0 <= i < s.len() && #[trigger] s[i].code
                == k by {
            if table_of(s).contains_key(k) && k != last.code {
                let i = choose|i: int| 0 <= i < t.len() && #[trigger] t[i].code == k;
                assert(s[i] == t[i]);
            }
            if exists|i: int| 0 <= i < s.len() && #[trigger] s[i].code == k {
                let i = choose|i: int| 0 <= i < s.len() && #[trigger] s[i].code == k;
                if i < s.len() - 1 {
                    assert(t[i] == s[i]);
                }
            }
        }
        assert forall|i: int| 0 <= i < s.len() implies table_of(s)[#[trigger] s[i].code] == s[i] by {
            if i < s.len() - 1 {
                assert(t[i] == s[i]);
            }
        }
    } else {
        assert(table_of(s).dom() =~= Set::<Seq<char>>::empty());
    }
}

proof fn lemma_table_remove(s: Seq<SharedFileView>, i: int)
    requires
        distinct_codes(s),
        0 <= i < s.len(),
    ensures
        distinct_codes(s.remove(i)),
        table_of(s.remove(i)) == table_of(s).remove(s[i].code),
{
    let r = s.remove(i);
    assert(distinct_codes(r)) by {
        assert forall|a: int, b: int|
            0 <= a < r.len() && 0 <= b < r.len() && a != b implies r[a].code != r[b].code by {
            let a2 = if a < i { a } else { a + 1 };
            let b2 = if b < i { b } else { b + 1 };
            assert(r[a] == s[a2] && r[b] == s[b2]);
        }
    }
    lemma_table_of(s);
    lemma_table_of(r);
    assert forall|k: Seq<char>|
        table_of(r).contains_key(k) <==> table_of(s).remove(s[i].code).contains_key(k) by {
        if table_of(r).contains_key(k) {
            let j = choose|j: int| 0 <= j < r.len() && #[trigger] r[j].code == k;
            let j2 = if j < i { j } else { j + 1 };
            assert(r[j] == s[j2]);
        }
        if table_of(s).remove(s[i].code).contains_key(k) {
            let j = choose|j: int| 0 <= j < s.len() && #[trigger] s[j].code == k;
            assert(j != i);
            let j2 = if j < i { j } else { j - 1 };
            assert(r[j2] == s[j]);
        }
    }
    assert forall|k: Seq<char>| #[trigger] table_of(r).contains_key(k) implies table_of(r)[k]
        == table_of(s).remove(s[i].code)[k] by {
        let j = choose|j: int| 0 <= j < r.len() && #[trigger] r[j].code == k;
        let j2 = if j < i { j } else { j + 1 };
        assert(r[j] == s[j2]);
    }
    assert(table_of(r) =~= table_of(s).remove(s[i].code));
}

/// After sharing `f`, its code leads to `f`; every other code leads where
/// it led before.
pub proof fn law_get_after_add(
    table: Map<Seq<char>, SharedFileView>,
    f: SharedFileView,
    k: Seq<char>,
)
    ensures
        lookup(table.insert(f.code, f), k) == (if k == f.code {
            Some(f)
        } else {
            lookup(table, k)
        }),
{
}

/// After removing a code, it leads nowhere; every other code leads where
/// it led before.
pub proof fn law_get_after_remove(
    table: Map<Seq<char>, SharedFileView>,
    code: Seq<char>,
    k: Seq<char>,
)
    ensures
        lookup(table.remove(code), k) == (if k == code {
            None
        } else {
            lookup(table, k)
        }),
{
}

/// Removing a code that leads nowhere changes nothing.
pub proof fn law_remove_absent_is_noop(table: Map<Seq<char>, SharedFileView>, code: Seq<char>)
    requires
        lookup(table, code) is None,
    ensures
        table.remove(code) == table,
{
    assert(table.remove(code) =~= table);
}

/// Given when no code is left for a new file.
pub const MSG_NO_FREE_CODE: &'static str = "没有可用的验证码";

/// The shared files, by code.
pub struct FileManager {
    files: Vec<SharedFile>,
}

impl FileManager {
    /// The files in the order they are kept.
    pub closed spec fn entries(&self) -> Seq<SharedFileView> {
        self.files@.map_values(|f: SharedFile| f@)
    }

    /// Codes are distinct and every code is a valid code.
    #[verifier::type_invariant]
    closed spec fn well_formed(self) -> bool {
        &&& distinct_codes(self.entries())
        &&& forall|i: int| 0 <= i < self.files@.len() ==> is_code(#[trigger] self.files@[i].code@)
    }
}

impl View for FileManager {
    type V = Map<Seq<char>, SharedFileView>;

    /// Each code leads to one file, whose `code` is that code.
    closed spec fn view(&self) -> Map<Seq<char>, SharedFileView> {
        table_of(self.entries())
    }
}

impl FileManager {
    /// An empty table.
    pub fn new() -> (r: Self)
        ensures
            r@ == Map::<Seq<char>, SharedFileView>::empty(),
    {
        let r = FileManager { files: Vec::new() };
        assert(r.entries() =~= Seq::<SharedFileView>::empty());
        r
    }

    /// The position of the file with this code.
    fn position(&self, code: &str) -> (r: Option<usize>)
        ensures
            match r {
                Some(i) => i < self.files@.len() && self.files@[i as int].code@ == code@,
                None => forall|i: int| 0 <= i < self.files@.len() ==> self.files@[i].code@ != code@,
            },
    {
        let key = code.to_owned();
        let mut i: usize = 0;
        while i < self.files.len()
            invariant
                key@ == code@,
                i <= self.files@.len(),
                forall|j: int| 0 <= j < i ==> self.files@[j].code@ != code@,
            decreases self.files@.len() - i,
        {
            if self.files[i].code == key {
                return Some(i);
            }
            i = i + 1;
        }
        None
    }

    /// Whether some file is shared under this code.
    fn holds(&self, code: &str) -> (r: bool)
        ensures
            r == self@.contains_key(code@),
    {
        proof {
            use_type_invariant(self);
            lemma_table_of(self.entries());
        }
        match self.position(code) {
            Some(i) => {
                assert(self.entries()[i as int] == self.files@[i as int]@);
                true
            },
            None => {
                proof {
                    if self@.contains_key(code@) {
                        let j = choose|j: int|
                            0 <= j < self.entries().len() && #[trigger] self.entries()[j].code
                                == code@;
                        assert(self.entries()[j] == self.files@[j]@);
                    }
                }
                false
            },
        }
    }

    /// The first code, in the order of their numbers, that no file holds;
    /// `None` when every code is taken.
    pub fn first_free_code(&self) -> (r: Option<String>)
        ensures
            match r {
                Some(c) => is_code(c@) && !self@.contains_key(c@),
                None => forall|c: Seq<char>| is_code(c) ==> self@.contains_key(c),
            },
            opt_code(r) == first_free(self@),
    {
        let mut k: u32 = 0;
        while k < 1048576
            invariant
                k <= 1048576,
                forall|j: u32| j < k ==> self@.contains_key(#[trigger] code_of_index(j)),
                first_free(self@) == free_from(self@, k as nat),
            decreases 1048576 - k,
        {
            proof {
                lemma_digits_below_32(k);
            }
            let c = code_from_indices(
                ((k >> 15u32) & 31u32) as usize,
                ((k >> 10u32) & 31u32) as usize,
                ((k >> 5u32) & 31u32) as usize,
                (k & 31u32) as usize,
            );
            assert(c@ == code_of_index(k));
            if !self.holds(c.as_str()) {
                return Some(c);
            }
            assert(free_from(self@, k as nat) == free_from(self@, (k + 1) as nat));
            k = k + 1;
        }
        proof {
            assert forall|c: Seq<char>| is_code(c) implies self@.contains_key(c) by {
                lemma_every_code_numbered(c);
                let j = choose|j: u32| j < 1048576 && code_of_index(j) == c;
                assert(self@.contains_key(code_of_index(j)));
            }
        }
        None
    }

    /// Chooses the code for a new file from a run of draws, as
    /// `spec_pick_code` says.
    pub fn pick_code(&self, draws: &Vec<Option<String>>) -> (r: Result<String, bool>)
        requires
            forall|i: int| 0 <= i < draws@.len() ==> (#[trigger] draws@[i] matches Some(c) ==> is_code(c@)),
        ensures
            match r {
                Ok(c) => spec_pick_code(self@, draws@.map_values(|d: Option<String>| opt_code(d)))
                    == Ok::<Seq<char>, bool>(c@),
                Err(e) => spec_pick_code(self@, draws@.map_values(|d: Option<String>| opt_code(d)))
                    == Err::<Seq<char>, bool>(e),
            },
            r matches Ok(c) ==> is_code(c@) && !self@.contains_key(c@),
            r == Err::<String, bool>(true) ==> forall|c: Seq<char>|
                is_code(c) ==> self@.contains_key(c),
            (forall|c: Seq<char>| is_code(c) ==> self@.contains_key(c)) ==> r is Err,
    {
        let ghost ds = draws@.map_values(|d: Option<String>| opt_code(d));
        let mut i: usize = 0;
        assert(ds.skip(0) =~= ds);
        while i < draws.len()
            invariant
                i <= draws@.len(),
                ds == draws@.map_values(|d: Option<String>| opt_code(d)),
                spec_pick_code(self@, ds) == spec_pick_code(self@, ds.skip(i as int)),
                forall|j: int| 0 <= j < draws@.len() ==> (#[trigger] draws@[j] matches Some(c) ==> is_code(c@)),
            decreases draws@.len() - i,
        {
            assert(ds.skip(i as int)[0] == opt_code(draws@[i as int]));
            assert(ds.skip(i as int).drop_first() =~= ds.skip(i + 1));
            match &draws[i] {
                None => {
                    return Err(false);
                },
                Some(c) => {
                    if !self.holds(c.as_str()) {
                        assert(draws@[i as int] matches Some(d) && d@ == c@);
                        return Ok(c.clone());
                    }
                },
            }
            i = i + 1;
        }
        assert(ds.skip(i as int) =~= Seq::<Option<Seq<char>>>::empty());
        match self.first_free_code() {
            Some(c) => Ok(c),
            None => Err(true),
        }
    }

    /// Shares a file under `code`, which no file holds, and returns its
    /// record.
    pub fn share_under(&mut self, code: String, file_name: String, file_path: String, file_size: u64) -> (r:
        SharedFile)
        requires
            is_code(code@),
            !old(self)@.contains_key(code@),
        ensures
            r.code@ == code@,
            r.file_name@ == file_name@,
            r.file_path@ == file_path@,
            r.file_size == file_size,
            final(self)@ == old(self)@.insert(code@, r@),
    {
        proof {
            use_type_invariant(&*self);
            lemma_table_of(self.entries());
        }
        let shared = SharedFile { code, file_name, file_path, file_size };
        let stored = copy_file(&shared);
        let mut files: Vec<SharedFile> = Vec::new();
        std::mem::swap(&mut files, &mut self.files);
        let ghost before_files = files@;
        let ghost before = files@.map_values(|f: SharedFile| f@);
        assert(self.entries() =~= Seq::<SharedFileView>::empty());
        files.push(stored);
        proof {
            let now = files@.map_values(|f: SharedFile| f@);
            assert(now =~= before.push(shared@));
            assert(now.drop_last() =~= before);
            assert(distinct_codes(now)) by {
                assert forall|a: int, b: int|
                    0 <= a < now.len() && 0 <= b < now.len() && a != b implies now[a].code
                    != now[b].code by {
                    if a < before.len() && b < before.len() {
                    } else if a < before.len() {
                        assert(table_of(before).contains_key(now[a].code));
                    } else {
                        assert(table_of(before).contains_key(now[b].code));
                    }
                }
            }
            assert forall|j: int| 0 <= j < files@.len() implies is_code(#[trigger] files@[j].code@) by {
                if j < before_files.len() {
                    assert(files@[j] == before_files[j]);
                }
            }
        }
        self.files = files;
        shared
    }

    /// Shares a file under a code that no other shared file holds and
    /// returns its record. The name, path and size are what the caller read
    /// from the file system. Up to eight codes are drawn at random (stopping
    /// at the first free one) and `pick_code` chooses among them: after
    /// eight draws that were all taken, or when a draw fails (the system's
    /// random source failed), the first free code is used. Whatever the
    /// file's size and whatever the random source does, this succeeds
    /// exactly when some code is still free; otherwise it fails with
    /// `MSG_NO_FREE_CODE` and changes nothing.
    pub fn add_file(&mut self, file_name: String, file_path: String, file_size: u64) -> (r:
        Result<SharedFile, String>)
        ensures
            match r {
                Ok(f) => {
                    &&& is_code(f.code@)
                    &&& !old(self)@.contains_key(f.code@)
                    &&& f.file_name@ == file_name@
                    &&& f.file_path@ == file_path@
                    &&& f.file_size == file_size
                    &&& final(self)@ == old(self)@.insert(f.code@, f@)
                },
                Err(msg) => {
                    &&& final(self)@ == old(self)@
                    &&& msg@ == MSG_NO_FREE_CODE@
                },
            },
            r is Err <==> (forall|c: Seq<char>| is_code(c) ==> old(self)@.contains_key(c)),
    {
        let mut draws: Vec<Option<String>> = Vec::new();
        let mut done = false;
        while draws.len() < 8 && !done
            invariant
                draws@.len() <= 8,
                forall|i: int| 0 <= i < draws@.len() ==> (#[trigger] draws@[i] matches Some(c) ==> is_code(c@)),
            decreases 8 - draws@.len(),
        {
            let d = generate_code();
            done = match &d {
                None => true,
                Some(c) => !self.holds(c.as_str()),
            };
            let ghost before = draws@;
            draws.push(d);
            assert forall|i: int| 0 <= i < draws@.len() implies (#[trigger] draws@[i] matches Some(
                c,
            ) ==> is_code(c@)) by {
                if i < before.len() {
                    assert(draws@[i] == before[i]);
                }
            }
        }
        match self.pick_code(&draws) {
            Ok(code) => Ok(self.share_under(code, file_name, file_path, file_size)),
            Err(all_taken) => {
                if all_taken {
                    Err(String::from_str(MSG_NO_FREE_CODE))
                } else {
                    match self.first_free_code() {
                        Some(code) => Ok(self.share_under(code, file_name, file_path, file_size)),
                        None => Err(String::from_str(MSG_NO_FREE_CODE)),
                    }
                }
            },
        }
    }

    /// Stops sharing the file with this code; `true` when there was one.
    pub fn remove_file(&mut self, code: &str) -> (r: bool)
        ensures
            r == old(self)@.contains_key(code@),
            final(self)@ == old(self)@.remove(code@),
    {
        proof {
            use_type_invariant(&*self);
            lemma_table_of(self.entries());
        }
        let pos = self.position(code);
        match pos {
            Some(i) => {
                let mut files: Vec<SharedFile> = Vec::new();
                std::mem::swap(&mut files, &mut self.files);
                let ghost before = files@;
                assert(self.entries() =~= Seq::<SharedFileView>::empty());
                proof {
                    lemma_table_remove(before.map_values(|f: SharedFile| f@), i as int);
                }
                files.remove(i);
                proof {
                    assert(files@.map_values(|f: SharedFile| f@) =~= before.map_values(
                        |f: SharedFile| f@,
                    ).remove(i as int));
                    assert forall|j: int| 0 <= j < files@.len() implies is_code(
                        #[trigger] files@[j].code@,
                    ) by {
                        if j < i {
                            assert(files@[j] == before[j]);
                        } else {
                            assert(files@[j] == before[j + 1]);
                        }
                    }
                    assert(before.map_values(|f: SharedFile| f@)[i as int].code == code@);
                }
                self.files = files;
                true
            },
            None => {
                proof {
                    assert(!old(self)@.contains_key(code@)) by {
                        if old(self)@.contains_key(code@) {
                            let j = choose|j: int|
                                0 <= j < self.entries().len() && #[trigger] self.entries()[j].code
                                    == code@;
                            assert(self.entries()[j] == self.files@[j]@);
                        }
                    }
                    assert(old(self)@.remove(code@) =~= old(self)@);
                }
                false
            },
        }
    }

    /// The file shared under this code, if any.
    pub fn get_file(&self, code: &str) -> (r: Option<SharedFile>)
        ensures
            opt_file_view(r) == lookup(self@, code@),
            r matches Some(f) ==> f.code@ == code@,
            r is Some ==> is_code(code@),
    {
        proof {
            use_type_invariant(self);
            lemma_table_of(self.entries());
        }
        match self.position(code) {
            Some(i) => {
                assert(self.entries()[i as int] == self.files@[i as int]@);
                Some(copy_file(&self.files[i]))
            },
            None => {
                proof {
                    if self@.contains_key(code@) {
                        let j = choose|j: int|
                            0 <= j < self.entries().len() && #[trigger] self.entries()[j].code
                                == code@;
                        assert(self.entries()[j] == self.files@[j]@);
                    }
                }
                None
            },
        }
    }

    /// All shared files, each once, in no particular order.
    pub fn list_files(&self) -> (r: Vec<SharedFile>)
        ensures
            r@.len() == self@.dom().len(),
            distinct_codes(r@.map_values(|f: SharedFile| f@)),
            forall|i: int|
                0 <= i < r@.len() ==> lookup(self@, (#[trigger] r@[i]).code@) == Some(r@[i]@),
            forall|k: Seq<char>|
                #[trigger] self@.contains_key(k) ==> exists|i: int| 0 <= i < r@.len() && r@[i].code@
                    == k,
    {
        proof {
            use_type_invariant(self);
            lemma_table_of(self.entries());
        }
        let mut out: Vec<SharedFile> = Vec::new();
        let mut i: usize = 0;
        while i < self.files.len()
            invariant
                i <= self.files@.len(),
                out@.len() == i,
                forall|j: int| 0 <= j < i ==> (#[trigger] out@[j])@ == self.files@[j]@,
            decreases self.files@.len() - i,
        {
            out.push(copy_file(&self.files[i]));
            i = i + 1;
        }
        proof {
            assert(out@.map_values(|f: SharedFile| f@) =~= self.entries());
            assert forall|j: int| 0 <= j < out@.len() implies lookup(
                self@,
                (#[trigger] out@[j]).code@,
            ) == Some(out@[j]@) by {
                assert(self.entries()[j] == out@[j]@);
            }
            assert forall|k: Seq<char>| #[trigger] self@.contains_key(k) implies exists|j: int|
                0 <= j < out@.len() && out@[j].code@ == k by {
                let j = choose|j: int|
                    0 <= j < self.entries().len() && #[trigger] self.entries()[j].code == k;
                assert(out@[j]@ == self.entries()[j]);
            }
        }
        out
    }

    /// Whether no file is shared.
    pub fn is_empty(&self) -> (r: bool)
        ensures
            r == (self@ == Map::<Seq<char>, SharedFileView>::empty()),
    {
        proof {
            use_type_invariant(self);
            lemma_table_of(self.entries());
        }
        let r = self.files.len() == 0;
        proof {
            if r {
                assert(self.entries() =~= Seq::<SharedFileView>::empty());
            } else {
                assert(self@.contains_key(self.entries()[0].code));
            }
        }
        r
    }
}

} // verus!
