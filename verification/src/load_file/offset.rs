//! Modular arithmetic over the size of a core.

use vstd::arithmetic::div_mod::{
    lemma_fundamental_div_mod, lemma_fundamental_div_mod_converse, lemma_mod_bound,
    lemma_small_mod,
};
use vstd::prelude::*;
use vstd::std_specs::ops::{AddSpec, DivSpec, MulSpec, RemSpec, SubSpec};

verus! {

/// An absolute (non-negative) offset from the beginning of a core.
#[derive(Copy, Clone, Debug, PartialEq, Eq, Structural)]
pub struct Offset {
    pub(crate) value: i32,
    pub(crate) core_size: i32,
}

/// The non-negative representative of `value` modulo `core_size`.
pub open spec fn normalized(value: int, core_size: int) -> int {
    value % core_size
}

/// Reduce `value` to the range `0..core_size`.
pub fn offset_value(value: i32, core_size: i32) -> (r: i32)
    requires
        core_size > 0,
    ensures
        r == normalized(value as int, core_size as int),
        0 <= r < core_size,
{
    let r: i32 = value % core_size;
    proof {
        lemma_truncated_remainder(value as int, core_size as int);
    }
    if r < 0 {
        r + core_size
    } else {
        r
    }
}

/// The product of two values of an offset fits in 64 bits.
proof fn lemma_product_bound(a: int, b: int)
    requires
        0 <= a <= i32::MAX,
        0 <= b <= i32::MAX,
    ensures
        0 <= a * b <= i32::MAX * i32::MAX,
{
    assert(0 <= a * b <= 0x7fff_ffff * 0x7fff_ffff) by (nonlinear_arith)
        requires
            0 <= a <= 0x7fff_ffff,
            0 <= b <= 0x7fff_ffff,
    ;
}

/// Relates the remainder that truncates toward zero to the Euclidean one.
proof fn lemma_truncated_remainder(x: int, m: int)
    requires
        m > 0,
    ensures
        x < 0 && (-x) % m != 0 ==> x % m == m - (-x) % m,
        x < 0 && (-x) % m == 0 ==> x % m == 0,
{
    if x < 0 {
        let q = (-x) / m;
        let r = (-x) % m;
        lemma_fundamental_div_mod(-x, m);
        assert(-x == m * q + r);
        if r == 0 {
            assert(x == m * (-q)) by (nonlinear_arith)
                requires
                    -x == m * q + r,
                    r == 0,
            ;
            lemma_fundamental_div_mod_converse(x, m, -q, 0);
        } else {
            assert(x == m * (-q - 1) + (m - r)) by (nonlinear_arith)
                requires
                    -x == m * q + r,
            ;
            lemma_fundamental_div_mod_converse(x, m, -q - 1, m - r);
        }
    }
}

impl Offset {
    /// What holds of every offset: its value lies within its core.
    #[verifier::type_invariant]
    pub open(crate) spec fn inv(self) -> bool {
        0 <= self.value < self.core_size
    }

    /// The value of the offset, as a mathematical integer.
    pub open(crate) spec fn spec_value(self) -> int {
        self.value as int
    }

    /// The size of the core that the offset points into.
    pub open(crate) spec fn modulus(self) -> int {
        self.core_size as int
    }

    /// The offset that `value` denotes in a core of `core_size` cells.
    pub open(crate) spec fn spec_new(value: int, core_size: int) -> Offset {
        Offset { value: normalized(value, core_size) as i32, core_size: core_size as i32 }
    }

    /// Create a new offset. The value is adjusted to be within bounds of the core.
    pub fn new(value: i32, core_size: i32) -> (r: Self)
        requires
            core_size > 0,
        ensures
            r == Offset::spec_new(value as int, core_size as int),
            r.spec_value() == normalized(value as int, core_size as int),
            r.modulus() == core_size,
    {
        Offset { value: offset_value(value, core_size), core_size }
    }

    /// The size of the core that the offset points into.
    pub fn core_size(&self) -> (m: i32)
        ensures
            m == self.modulus(),
            m > 0,
    {
        proof {
            use_type_invariant(self);
        }
        self.core_size
    }

    /// Whether another offset points into a core of the same size. Only
    /// such offsets can be combined by the operators.
    pub fn check_core_size(self, other: Self) -> (same: bool)
        ensures
            same == (self.modulus() == other.modulus()),
    {
        self.core_size == other.core_size
    }

    /// The offset that a wide number denotes in a core of `core_size` cells.
    fn reduced(wide: i64, core_size: i32) -> (r: Self)
        requires
            core_size > 0,
        ensures
            r == Offset::spec_new(wide as int, core_size as int),
    {
        let size: i64 = core_size as i64;
        let remainder: i64 = wide % size;
        proof {
            lemma_truncated_remainder(wide as int, size as int);
        }
        let value: i64 = if remainder < 0 {
            remainder + size
        } else {
            remainder
        };
        Offset { value: value as i32, core_size }
    }

    /// Get the value of the offset. This is always less than the core size.
    pub fn value(&self) -> (v: i32)
        ensures
            v == self.spec_value(),
            0 <= v < self.modulus(),
    {
        proof {
            use_type_invariant(self);
        }
        self.value
    }
}

impl vstd::std_specs::ops::AddSpecImpl for Offset {
    open spec fn obeys_add_spec() -> bool {
        true
    }

    open spec fn add_req(self, rhs: Offset) -> bool {
        self.modulus() == rhs.modulus()
    }

    open spec fn add_spec(self, rhs: Offset) -> Offset {
        Offset::spec_new(self.spec_value() + rhs.spec_value(), self.modulus())
    }
}

impl std::ops::Add for Offset {
    type Output = Offset;

    /// The sum of two offsets into the same core, reduced modulo its size.
    fn add(self, rhs: Offset) -> (r: Offset) {
        proof {
            use_type_invariant(&self);
            use_type_invariant(&rhs);
        }
        Offset::reduced(self.value as i64 + rhs.value as i64, self.core_size)
    }
}

impl vstd::std_specs::ops::AddSpecImpl<i32> for Offset {
    open spec fn obeys_add_spec() -> bool {
        true
    }

    open spec fn add_req(self, rhs: i32) -> bool {
        true
    }

    open spec fn add_spec(self, rhs: i32) -> Offset {
        Offset::spec_new(
            self.spec_value() + normalized(rhs as int, self.modulus()),
            self.modulus(),
        )
    }
}

impl std::ops::Add<i32> for Offset {
    type Output = Offset;

    /// The sum of an offset and a plain number, which is first reduced
    /// modulo the size of the core.
    fn add(self, rhs: i32) -> (r: Offset) {
        proof {
            use_type_invariant(&self);
        }
        let other = Offset::new(rhs, self.core_size);
        self + other
    }
}

impl vstd::std_specs::ops::SubSpecImpl for Offset {
    open spec fn obeys_sub_spec() -> bool {
        true
    }

    open spec fn sub_req(self, rhs: Offset) -> bool {
        self.modulus() == rhs.modulus()
    }

    open spec fn sub_spec(self, rhs: Offset) -> Offset {
        Offset::spec_new(self.spec_value() - rhs.spec_value(), self.modulus())
    }
}

impl std::ops::Sub for Offset {
    type Output = Offset;

    /// The difference of two offsets into the same core, reduced modulo its size.
    fn sub(self, rhs: Offset) -> (r: Offset) {
        proof {
            use_type_invariant(&self);
            use_type_invariant(&rhs);
        }
        Offset::reduced(self.value as i64 - rhs.value as i64, self.core_size)
    }
}

impl vstd::std_specs::ops::SubSpecImpl<i32> for Offset {
    open spec fn obeys_sub_spec() -> bool {
        true
    }

    open spec fn sub_req(self, rhs: i32) -> bool {
        true
    }

    open spec fn sub_spec(self, rhs: i32) -> Offset {
        Offset::spec_new(
            self.spec_value() - normalized(rhs as int, self.modulus()),
            self.modulus(),
        )
    }
}

impl std::ops::Sub<i32> for Offset {
    type Output = Offset;

    /// The difference of an offset and a plain number, which is first reduced
    /// modulo the size of the core.
    fn sub(self, rhs: i32) -> (r: Offset) {
        proof {
            use_type_invariant(&self);
        }
        let other = Offset::new(rhs, self.core_size);
        self - other
    }
}

impl vstd::std_specs::ops::MulSpecImpl for Offset {
    open spec fn obeys_mul_spec() -> bool {
        true
    }

    open spec fn mul_req(self, rhs: Offset) -> bool {
        self.modulus() == rhs.modulus()
    }

    open spec fn mul_spec(self, rhs: Offset) -> Offset {
        Offset::spec_new(self.spec_value() * rhs.spec_value(), self.modulus())
    }
}

impl std::ops::Mul for Offset {
    type Output = Offset;

    /// The product of two offsets into the same core, reduced modulo its size.
    fn mul(self, rhs: Offset) -> (r: Offset) {
        proof {
            use_type_invariant(&self);
            use_type_invariant(&rhs);
            lemma_product_bound(self.value as int, rhs.value as int);
        }
        Offset::reduced(self.value as i64 * rhs.value as i64, self.core_size)
    }
}

impl vstd::std_specs::ops::MulSpecImpl<i32> for Offset {
    open spec fn obeys_mul_spec() -> bool {
        true
    }

    open spec fn mul_req(self, rhs: i32) -> bool {
        true
    }

    open spec fn mul_spec(self, rhs: i32) -> Offset {
        Offset::spec_new(
            self.spec_value() * normalized(rhs as int, self.modulus()),
            self.modulus(),
        )
    }
}

impl std::ops::Mul<i32> for Offset {
    type Output = Offset;

    /// The product of an offset and a plain number, which is first reduced
    /// modulo the size of the core.
    fn mul(self, rhs: i32) -> (r: Offset) {
        proof {
            use_type_invariant(&self);
        }
        let other = Offset::new(rhs, self.core_size);
        self * other
    }
}

impl vstd::std_specs::ops::DivSpecImpl for Offset {
    open spec fn obeys_div_spec() -> bool {
        true
    }

    open spec fn div_req(self, rhs: Offset) -> bool {
        self.modulus() == rhs.modulus()
            && rhs.spec_value() != 0
    }

    open spec fn div_spec(self, rhs: Offset) -> Offset {
        Offset::spec_new(self.spec_value() / rhs.spec_value(), self.modulus())
    }
}

impl std::ops::Div for Offset {
    type Output = Offset;

    /// The quotient of two offsets into the same core, reduced modulo its size.
    fn div(self, rhs: Offset) -> (r: Offset) {
        proof {
            use_type_invariant(&self);
            use_type_invariant(&rhs);
        }
        Offset::reduced(self.value as i64 / rhs.value as i64, self.core_size)
    }
}

impl vstd::std_specs::ops::DivSpecImpl<i32> for Offset {
    open spec fn obeys_div_spec() -> bool {
        true
    }

    open spec fn div_req(self, rhs: i32) -> bool {
        normalized(rhs as int, self.modulus()) != 0
    }

    open spec fn div_spec(self, rhs: i32) -> Offset {
        Offset::spec_new(
            self.spec_value() / normalized(rhs as int, self.modulus()),
            self.modulus(),
        )
    }
}

impl std::ops::Div<i32> for Offset {
    type Output = Offset;

    /// The quotient of an offset and a plain number, which is first reduced
    /// modulo the size of the core.
    fn div(self, rhs: i32) -> (r: Offset) {
        proof {
            use_type_invariant(&self);
        }
        let other = Offset::new(rhs, self.core_size);
        self / other
    }
}

impl vstd::std_specs::ops::RemSpecImpl for Offset {
    open spec fn obeys_rem_spec() -> bool {
        true
    }

    open spec fn rem_req(self, rhs: Offset) -> bool {
        self.modulus() == rhs.modulus()
            && rhs.spec_value() != 0
    }

    open spec fn rem_spec(self, rhs: Offset) -> Offset {
        Offset::spec_new(self.spec_value() % rhs.spec_value(), self.modulus())
    }
}

impl std::ops::Rem for Offset {
    type Output = Offset;

    /// The remainder of two offsets into the same core, reduced modulo its size.
    fn rem(self, rhs: Offset) -> (r: Offset) {
        proof {
            use_type_invariant(&self);
            use_type_invariant(&rhs);
        }
        Offset::reduced(self.value as i64 % rhs.value as i64, self.core_size)
    }
}

impl vstd::std_specs::ops::RemSpecImpl<i32> for Offset {
    open spec fn obeys_rem_spec() -> bool {
        true
    }

    open spec fn rem_req(self, rhs: i32) -> bool {
        normalized(rhs as int, self.modulus()) != 0
    }

    open spec fn rem_spec(self, rhs: i32) -> Offset {
        Offset::spec_new(
            self.spec_value() % normalized(rhs as int, self.modulus()),
            self.modulus(),
        )
    }
}

impl std::ops::Rem<i32> for Offset {
    type Output = Offset;

    /// The remainder of an offset and a plain number, which is first reduced
    /// modulo the size of the core.
    fn rem(self, rhs: i32) -> (r: Offset) {
        proof {
            use_type_invariant(&self);
        }
        let other = Offset::new(rhs, self.core_size);
        self % other
    }
}

/// Every offset that `new` makes lies within its core.
pub proof fn lemma_new_in_bounds(value: int, core_size: int)
    requires
        0 < core_size <= i32::MAX,
    ensures
        0 <= Offset::spec_new(value, core_size).spec_value() < core_size,
        Offset::spec_new(value, core_size).modulus() == core_size,
        Offset::spec_new(value, core_size).inv(),
{
}

/// Making an offset from the value of an offset gives that offset again.
pub proof fn lemma_new_idempotent(value: int, core_size: int)
    requires
        0 < core_size <= i32::MAX,
    ensures
        Offset::spec_new(Offset::spec_new(value, core_size).spec_value(), core_size)
            == Offset::spec_new(value, core_size),
{
    lemma_small_mod(normalized(value, core_size) as nat, core_size as nat);
}

/// The operators on two offsets into one core compute on the values and
/// reduce the result by the Euclidean remainder modulo the size of the core.
pub proof fn lemma_operators_are_modular(a: Offset, b: Offset)
    requires
        a.inv(),
        b.inv(),
        a.modulus() == b.modulus(),
    ensures
        a.add_spec(b).spec_value() == (a.spec_value() + b.spec_value()) % a.modulus(),
        a.sub_spec(b).spec_value() == (a.spec_value() - b.spec_value()) % a.modulus(),
        a.mul_spec(b).spec_value() == (a.spec_value() * b.spec_value()) % a.modulus(),
        b.spec_value() != 0 ==> a.div_spec(b).spec_value() == (a.spec_value() / b.spec_value())
            % a.modulus(),
        b.spec_value() != 0 ==> a.rem_spec(b).spec_value() == (a.spec_value() % b.spec_value())
            % a.modulus(),
        a.add_spec(b).inv(),
        a.sub_spec(b).inv(),
        a.mul_spec(b).inv(),
        b.spec_value() != 0 ==> a.div_spec(b).inv(),
        b.spec_value() != 0 ==> a.rem_spec(b).inv(),
{
    let m = a.modulus();
    lemma_mod_bound(a.spec_value() + b.spec_value(), m);
    lemma_mod_bound(a.spec_value() - b.spec_value(), m);
    lemma_mod_bound(a.spec_value() * b.spec_value(), m);
    if b.spec_value() != 0 {
        lemma_mod_bound(a.spec_value() / b.spec_value(), m);
        lemma_mod_bound(a.spec_value() % b.spec_value(), m);
    }
}

/// The operators with a plain number reduce the number first and then work
/// as they do on two offsets.
pub proof fn lemma_operators_with_number(a: Offset, n: i32)
    requires
        a.inv(),
    ensures
        a.add_spec(n) == a.add_spec(Offset::spec_new(n as int, a.modulus())),
        a.sub_spec(n) == a.sub_spec(Offset::spec_new(n as int, a.modulus())),
        a.mul_spec(n) == a.mul_spec(Offset::spec_new(n as int, a.modulus())),
        a.div_spec(n) == a.div_spec(Offset::spec_new(n as int, a.modulus())),
        a.rem_spec(n) == a.rem_spec(Offset::spec_new(n as int, a.modulus())),
{
    lemma_mod_bound(n as int, a.modulus());
}

} // verus!
