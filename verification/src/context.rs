use vstd::prelude::*;

use crate::text::str_eq;
use crate::variables::BuiltinVar;

verus! {

/// The names of the sections a piece of code may run in.
pub open spec fn is_context_name(name: Seq<char>) -> bool {
    ||| name == "init"@
    ||| name == "serialize"@
    ||| name == "block"@
    ||| name == "sample"@
    ||| name == "gfx"@
    ||| name == "slider"@
}

/// The bit that stands for a section name (0 for any other name).
pub open spec fn context_bit(name: Seq<char>) -> u8 {
    if name == "init"@ {
        1
    } else if name == "serialize"@ {
        2
    } else if name == "block"@ {
        4
    } else if name == "sample"@ {
        8
    } else if name == "gfx"@ {
        16
    } else if name == "slider"@ {
        32
    } else {
        0
    }
}

/// The bit field of all sections named in `names`.
pub open spec fn bits_of_names(names: Seq<Seq<char>>) -> u8
    decreases names.len(),
{
    if names.len() == 0 {
        0
    } else {
        bits_of_names(names.drop_last()) | context_bit(names.last())
    }
}

/// What is known of the sections some code may run in.
pub enum MaybeContext {
    /// The code may only run in the sections of the context.
    Known(Context),
    HasIncompatibleDemanders(Vec<ContextDemander>),
    Unknown,
    /// Nothing restricts the sections the code may run in.
    NoRestriction,
}

/// What restricts the sections some code may run in.
pub enum ContextDemander {
    FunctionCall { fun_name: String, context: Context },
    Variable(BuiltinVar),
}

/// A set of sections, as a bit field over the six section kinds.
#[derive(PartialEq, Eq, Structural, Debug)]
pub struct Context {
    bit_field: u8,
}

/// Whether the section named `name` is among the sections of the bit field `bits`.
pub open spec fn has_section(bits: u8, name: Seq<char>) -> bool {
    bits & context_bit(name) != 0
}

impl Context {
    /// Only the six section bits are ever set.
    #[verifier::type_invariant]
    spec fn inv(self) -> bool {
        self.bit_field <= 63
    }

    /// The sections of the context, as a bit field: init, serialize, block, sample, gfx
    /// and slider, from the lowest bit up.
    pub closed spec fn bits(self) -> u8 {
        self.bit_field
    }
}

/// The context of the sections that are in both `a` and `b`.
pub closed spec fn intersection(a: Context, b: Context) -> Context {
    Context { bit_field: a.bit_field & b.bit_field }
}

/// The bits of the intersection of two contexts are those that both have.
pub proof fn lemma_intersection_bits(a: Context, b: Context)
    ensures
        intersection(a, b).bits() == a.bits() & b.bits(),
{
}

/// Two contexts are the same exactly when they have the same sections.
pub proof fn law_context_equality(a: Context, b: Context)
    ensures
        (a == b) <==> (a.bits() == b.bits()),
{
}

impl Clone for Context {
    fn clone(&self) -> (r: Self)
        ensures
            r == *self,
            r.bits() <= 63,
    {
        proof {
            use_type_invariant(self);
        }
        Context { bit_field: self.bit_field }
    }
}

proof fn lemma_bits_of_names_bound(names: Seq<Seq<char>>)
    ensures
        bits_of_names(names) <= 63,
    decreases names.len(),
{
    if names.len() > 0 {
        lemma_bits_of_names_bound(names.drop_last());
        let a = bits_of_names(names.drop_last());
        let c = context_bit(names.last());
        assert(c <= 32);
        assert(a <= 63 && c <= 63 ==> (a | c) <= 63) by (bit_vector);
    }
}

proof fn lemma_masked(b: u8)
    requires
        b <= 63,
    ensures
        b & 63 == b,
{
    assert(b <= 63 ==> b & 63 == b) by (bit_vector);
}

impl Context {
    /// The context of code that may run in every section.
    pub fn new() -> (r: Self)
        ensures
            r.bits() == 63,
    {
        proof {
            lemma_masked(63);
        }
        Context { bit_field: 1 + 2 + 4 + 8 + 16 + 32 }
    }

    /// The context made of the named sections.
    pub fn from_vec(contexts: Vec<&str>) -> (r: Self)
        requires
            forall|i: int| 0 <= i < contexts@.len() ==> is_context_name(#[trigger] contexts@[i]@),
        ensures
            r.bits() == bits_of_names(contexts@.map_values(|s: &str| s@)),
            r.bits() <= 63,
    {
        let ghost names = contexts@.map_values(|s: &str| s@);
        let mut bit_field: u8 = 0;
        let mut i: usize = 0;
        while i < contexts.len()
            invariant
                i <= contexts@.len(),
                names == contexts@.map_values(|s: &str| s@),
                forall|k: int| 0 <= k < contexts@.len() ==> is_context_name(#[trigger] contexts@[k]@),
                bit_field == bits_of_names(names.take(i as int)),
            decreases contexts@.len() - i,
        {
            let bit = Self::string_to_bit(contexts[i]);
            assert(names.take(i + 1).drop_last() =~= names.take(i as int));
            bit_field = bit_field | bit;
            i += 1;
        }
        assert(names.take(i as int) =~= names);
        proof {
            lemma_bits_of_names_bound(names);
            lemma_masked(bit_field);
        }
        Context { bit_field }
    }

    /// The sections that are in both contexts.
    pub fn intersect(&self, other: &Self) -> (r: Self)
        ensures
            r == intersection(*self, *other),
            r.bits() == self.bits() & other.bits(),
            self.bits() <= 63,
            other.bits() <= 63,
            r.bits() <= 63,
    {
        proof {
            use_type_invariant(self);
            use_type_invariant(other);
            let x = self.bit_field;
            let y = other.bit_field;
            assert(x <= 63 && y <= 63 ==> (x & y) <= 63 && (x & y) & 63 == (x & 63) & (y & 63)) by (bit_vector);
        }
        Context { bit_field: self.bit_field & other.bit_field }
    }

    /// Whether no section is left.
    pub fn is_empty(&self) -> (r: bool)
        ensures
            r == (self.bits() == 0),
            self.bits() <= 63,
    {
        proof {
            use_type_invariant(self);
            lemma_masked(self.bit_field);
        }
        self.bit_field == 0
    }

    /// Whether every section is in the context.
    pub fn is_compatible_with_all(&self) -> (r: bool)
        ensures
            r == (self.bits() == 63),
            self.bits() <= 63,
    {
        proof {
            use_type_invariant(self);
            lemma_masked(self.bit_field);
        }
        let all = Self::new();
        proof {
            use_type_invariant(&all);
            lemma_masked(all.bit_field);
        }
        self.bit_field == all.bit_field
    }

    /// Whether the named section is in the context.
    pub fn is_compatible_in_section(&self, section: &str) -> (r: bool)
        requires
            is_context_name(section@),
        ensures
            r == has_section(self.bits(), section@),
            self.bits() <= 63,
    {
        proof {
            use_type_invariant(self);
            lemma_masked(self.bit_field);
        }
        let bit = Self::string_to_bit(section);
        self.bit_field & bit != 0
    }

    fn string_to_bit(context_name: &str) -> (r: u8)
        requires
            is_context_name(context_name@),
        ensures
            r == context_bit(context_name@),
    {
        if str_eq(context_name, "init") {
            1
        } else if str_eq(context_name, "serialize") {
            2
        } else if str_eq(context_name, "block") {
            4
        } else if str_eq(context_name, "sample") {
            8
        } else if str_eq(context_name, "gfx") {
            16
        } else {
            32
        }
    }
}

/// The bit of the section at position `i`, in the order init, serialize, block, sample,
/// gfx, slider.
pub open spec fn bit_at(i: int) -> u8 {
    if i == 0 {
        1
    } else if i == 1 {
        2
    } else if i == 2 {
        4
    } else if i == 3 {
        8
    } else if i == 4 {
        16
    } else {
        32
    }
}

/// The name of the section whose bit is `bit`.
pub open spec fn bit_name(bit: u8) -> Seq<char> {
    if bit == 1 {
        "init"@
    } else if bit == 2 {
        "serialize"@
    } else if bit == 4 {
        "block"@
    } else if bit == 8 {
        "sample"@
    } else if bit == 16 {
        "gfx"@
    } else {
        "slider"@
    }
}

/// How the first `n` sections of the bit field `b` are written, and whether none of them is
/// in it.
pub open spec fn context_text_upto(b: u8, n: int) -> (Seq<char>, bool)
    decreases n,
{
    if n <= 0 {
        (Seq::empty(), true)
    } else {
        let prev = context_text_upto(b, n - 1);
        if b & bit_at(n - 1) != 0 {
            (
                prev.0 + (if prev.1 {
                    Seq::empty()
                } else {
                    ", "@
                }) + "@"@ + bit_name(bit_at(n - 1)),
                false,
            )
        } else {
            prev
        }
    }
}

/// How a context is written: each of its sections after '@', separated by ", ".
pub open spec fn context_text(c: Context) -> Seq<char> {
    context_text_upto(c.bits(), 6).0
}

impl Context {
    /// The name of the section whose bit is `bit`.
    fn bit_to_string(bit: u8) -> (r: &'static str)
        requires
            bit == 1 || bit == 2 || bit == 4 || bit == 8 || bit == 16 || bit == 32,
        ensures
            r@ == bit_name(bit),
    {
        if bit == 1 {
            "init"
        } else if bit == 2 {
            "serialize"
        } else if bit == 4 {
            "block"
        } else if bit == 8 {
            "sample"
        } else if bit == 16 {
            "gfx"
        } else {
            "slider"
        }
    }

    /// How the context is written: each of its sections after '@', separated by ", ".
    pub fn to_text(&self) -> (r: String)
        ensures
            r@ == context_text(*self),
            self.bits() <= 63,
    {
        proof {
            use_type_invariant(self);
            lemma_masked(self.bit_field);
        }
        let mut out = String::new();
        let mut first = true;
        let mut i: usize = 0;
        let mut bit: u8 = 1;
        while i < 6
            invariant
                i <= 6,
                bit == bit_at(i as int),
                (out@, first) == context_text_upto(self.bit_field, i as int),
                self.bits() == self.bit_field,
            decreases 6 - i,
        {
            if self.bit_field & bit != 0 {
                if !first {
                    out.append(", ");
                }
                out.append("@");
                out.append(Self::bit_to_string(bit));
                first = false;
            }
            if i < 5 {
                bit = bit * 2;
            }
            i += 1;
        }
        out
    }
}

impl Default for Context {
    fn default() -> (r: Self)
        ensures
            r.bits() == 63,
    {
        Self::new()
    }
}

proof fn lemma_section_bit(name: Seq<char>)
    requires
        is_context_name(name),
    ensures
        context_bit(name) == 1 || context_bit(name) == 2 || context_bit(name) == 4
            || context_bit(name) == 8 || context_bit(name) == 16 || context_bit(name) == 32,
{
}

proof fn lemma_section_names()
    ensures
        context_bit("init"@) == 1,
        context_bit("serialize"@) == 2,
        context_bit("block"@) == 4,
        context_bit("sample"@) == 8,
        context_bit("gfx"@) == 16,
        context_bit("slider"@) == 32,
        is_context_name("init"@),
        is_context_name("serialize"@),
        is_context_name("block"@),
        is_context_name("sample"@),
        is_context_name("gfx"@),
        is_context_name("slider"@),
{
    reveal_strlit("init");
    reveal_strlit("serialize");
    reveal_strlit("block");
    reveal_strlit("sample");
    reveal_strlit("gfx");
    reveal_strlit("slider");
    assert("serialize"@[0] != "init"@[0]);
    assert("block"@[0] != "init"@[0] && "block"@[0] != "serialize"@[0]);
    assert("sample"@[0] != "init"@[0] && "sample"@.len() != "serialize"@.len() && "sample"@[0] != "block"@[0]);
    assert("gfx"@[0] != "init"@[0] && "gfx"@[0] != "serialize"@[0] && "gfx"@[0] != "block"@[0] && "gfx"@[0] != "sample"@[0]);
    assert("slider"@[0] != "init"@[0] && "slider"@.len() != "serialize"@.len() && "slider"@[0] != "block"@[0] && "slider"@[1] != "sample"@[1] && "slider"@[0] != "gfx"@[0]);
}

/// Intersecting two contexts keeps the sections that both have. The order does not
/// matter, a context intersected with itself stays as it is, and so does a context
/// intersected with the context of every section (whose bits are 63).
pub proof fn law_intersect(a: Context, b: Context, all: Context)
    requires
        a.bits() <= 63,
        b.bits() <= 63,
        all.bits() == 63,
    ensures
        forall|name: Seq<char>|
            is_context_name(name) ==> (#[trigger] has_section(intersection(a, b).bits(), name) <==> (
            has_section(a.bits(), name) && has_section(b.bits(), name))),
        intersection(a, b) == intersection(b, a),
        intersection(a, a) == a,
        intersection(a, all) == a,
{
    let x = a.bits();
    let y = b.bits();
    assert(x & y == y & x && x & x == x) by (bit_vector);
    assert(x <= 63 ==> x & 63 == x) by (bit_vector);
    assert(intersection(a, b).bits() == intersection(b, a).bits());
    assert(intersection(a, a).bits() == a.bits());
    assert(intersection(a, all).bits() == a.bits());
    assert forall|name: Seq<char>| is_context_name(name) implies (#[trigger] has_section(intersection(a, b).bits(), name) <==> (
        has_section(x, name) && has_section(y, name))) by {
        lemma_section_bit(name);
        let c = context_bit(name);
        assert(((x & y) & c != 0) == (x & c != 0 && y & c != 0)) by (bit_vector)
            requires
                c == 1 || c == 2 || c == 4 || c == 8 || c == 16 || c == 32,
        ;
    }
}

/// A context is empty exactly when none of the six sections is in it.
pub proof fn law_empty_context(c: Context)
    requires
        c.bits() <= 63,
    ensures
        c.bits() == 0 <==> forall|name: Seq<char>| is_context_name(name) ==> !#[trigger] has_section(c.bits(), name),
{
    lemma_section_names();
    let x = c.bits();
    if forall|name: Seq<char>| is_context_name(name) ==> !#[trigger] has_section(x, name) {
        assert(!has_section(x, "init"@));
        assert(!has_section(x, "serialize"@));
        assert(!has_section(x, "block"@));
        assert(!has_section(x, "sample"@));
        assert(!has_section(x, "gfx"@));
        assert(!has_section(x, "slider"@));
        assert(x == 0) by (bit_vector)
            requires
                x <= 63,
                x & 1 == 0,
                x & 2 == 0,
                x & 4 == 0,
                x & 8 == 0,
                x & 16 == 0,
                x & 32 == 0,
        ;
    }
    if x == 0 {
        assert forall|name: Seq<char>| is_context_name(name) implies !#[trigger] has_section(x, name) by {
            lemma_section_bit(name);
            let b = context_bit(name);
            assert(x == 0 ==> x & b == 0) by (bit_vector);
        }
    }
}

/// A context allows every section exactly when each of the six sections is in it.
pub proof fn law_context_of_all(c: Context)
    requires
        c.bits() <= 63,
    ensures
        c.bits() == 63 <==> forall|name: Seq<char>| is_context_name(name) ==> #[trigger] has_section(c.bits(), name),
{
    lemma_section_names();
    let x = c.bits();
    if forall|name: Seq<char>| is_context_name(name) ==> #[trigger] has_section(x, name) {
        assert(has_section(x, "init"@));
        assert(has_section(x, "serialize"@));
        assert(has_section(x, "block"@));
        assert(has_section(x, "sample"@));
        assert(has_section(x, "gfx"@));
        assert(has_section(x, "slider"@));
        assert(x == 63) by (bit_vector)
            requires
                x <= 63,
                x & 1 != 0,
                x & 2 != 0,
                x & 4 != 0,
                x & 8 != 0,
                x & 16 != 0,
                x & 32 != 0,
        ;
    }
    if x == 63 {
        assert forall|name: Seq<char>| is_context_name(name) implies #[trigger] has_section(x, name) by {
            lemma_section_bit(name);
            let b = context_bit(name);
            assert(x == 63 && (b == 1 || b == 2 || b == 4 || b == 8 || b == 16 || b == 32) ==> x & b != 0) by (bit_vector);
        }
    }
}

} // verus!
