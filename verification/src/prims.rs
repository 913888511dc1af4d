//! The primitive integer types as coordinate types.
use crate::boxes::qcast;
use crate::boxes::BNum;
use crate::boxes::Integral;
use vstd::prelude::*;

verus! {

impl Integral for i8 {
    open spec fn val(self) -> int {
        self as int
    }

    open spec fn of(v: int) -> Self {
        v as i8
    }

    open spec fn lowest() -> int {
        i8::MIN as int
    }

    open spec fn highest() -> int {
        i8::MAX as int
    }

    proof fn lemma_model(self, v: int) {
    }
}

impl BNum for i8 {
    fn gt(self, o: Self) -> (r: bool) {
        self > o
    }

    fn plus(self, o: Self) -> (r: Self) {
        self + o
    }

    fn minus(self, o: Self) -> (r: Self) {
        self - o
    }

    fn half(self) -> (r: Self) {
        self / qcast::<i32, i8>(2i32)
    }
}

impl Integral for i16 {
    open spec fn val(self) -> int {
        self as int
    }

    open spec fn of(v: int) -> Self {
        v as i16
    }

    open spec fn lowest() -> int {
        i16::MIN as int
    }

    open spec fn highest() -> int {
        i16::MAX as int
    }

    proof fn lemma_model(self, v: int) {
    }
}

impl BNum for i16 {
    fn gt(self, o: Self) -> (r: bool) {
        self > o
    }

    fn plus(self, o: Self) -> (r: Self) {
        self + o
    }

    fn minus(self, o: Self) -> (r: Self) {
        self - o
    }

    fn half(self) -> (r: Self) {
        self / qcast::<i32, i16>(2i32)
    }
}

impl Integral for i32 {
    open spec fn val(self) -> int {
        self as int
    }

    open spec fn of(v: int) -> Self {
        v as i32
    }

    open spec fn lowest() -> int {
        i32::MIN as int
    }

    open spec fn highest() -> int {
        i32::MAX as int
    }

    proof fn lemma_model(self, v: int) {
    }
}

impl BNum for i32 {
    fn gt(self, o: Self) -> (r: bool) {
        self > o
    }

    fn plus(self, o: Self) -> (r: Self) {
        self + o
    }

    fn minus(self, o: Self) -> (r: Self) {
        self - o
    }

    fn half(self) -> (r: Self) {
        self / qcast::<i32, i32>(2i32)
    }
}

impl Integral for i64 {
    open spec fn val(self) -> int {
        self as int
    }

    open spec fn of(v: int) -> Self {
        v as i64
    }

    open spec fn lowest() -> int {
        i64::MIN as int
    }

    open spec fn highest() -> int {
        i64::MAX as int
    }

    proof fn lemma_model(self, v: int) {
    }
}

impl BNum for i64 {
    fn gt(self, o: Self) -> (r: bool) {
        self > o
    }

    fn plus(self, o: Self) -> (r: Self) {
        self + o
    }

    fn minus(self, o: Self) -> (r: Self) {
        self - o
    }

    fn half(self) -> (r: Self) {
        self / qcast::<i32, i64>(2i32)
    }
}

impl Integral for i128 {
    open spec fn val(self) -> int {
        self as int
    }

    open spec fn of(v: int) -> Self {
        v as i128
    }

    open spec fn lowest() -> int {
        i128::MIN as int
    }

    open spec fn highest() -> int {
        i128::MAX as int
    }

    proof fn lemma_model(self, v: int) {
    }
}

impl BNum for i128 {
    fn gt(self, o: Self) -> (r: bool) {
        self > o
    }

    fn plus(self, o: Self) -> (r: Self) {
        self + o
    }

    fn minus(self, o: Self) -> (r: Self) {
        self - o
    }

    fn half(self) -> (r: Self) {
        self / qcast::<i32, i128>(2i32)
    }
}

impl Integral for isize {
    open spec fn val(self) -> int {
        self as int
    }

    open spec fn of(v: int) -> Self {
        v as isize
    }

    open spec fn lowest() -> int {
        isize::MIN as int
    }

    open spec fn highest() -> int {
        isize::MAX as int
    }

    proof fn lemma_model(self, v: int) {
    }
}

impl BNum for isize {
    fn gt(self, o: Self) -> (r: bool) {
        self > o
    }

    fn plus(self, o: Self) -> (r: Self) {
        self + o
    }

    fn minus(self, o: Self) -> (r: Self) {
        self - o
    }

    fn half(self) -> (r: Self) {
        self / qcast::<i32, isize>(2i32)
    }
}

impl Integral for u8 {
    open spec fn val(self) -> int {
        self as int
    }

    open spec fn of(v: int) -> Self {
        v as u8
    }

    open spec fn lowest() -> int {
        u8::MIN as int
    }

    open spec fn highest() -> int {
        u8::MAX as int
    }

    proof fn lemma_model(self, v: int) {
    }
}

impl BNum for u8 {
    fn gt(self, o: Self) -> (r: bool) {
        self > o
    }

    fn plus(self, o: Self) -> (r: Self) {
        self + o
    }

    fn minus(self, o: Self) -> (r: Self) {
        self - o
    }

    fn half(self) -> (r: Self) {
        self / qcast::<i32, u8>(2i32)
    }
}

impl Integral for u16 {
    open spec fn val(self) -> int {
        self as int
    }

    open spec fn of(v: int) -> Self {
        v as u16
    }

    open spec fn lowest() -> int {
        u16::MIN as int
    }

    open spec fn highest() -> int {
        u16::MAX as int
    }

    proof fn lemma_model(self, v: int) {
    }
}

impl BNum for u16 {
    fn gt(self, o: Self) -> (r: bool) {
        self > o
    }

    fn plus(self, o: Self) -> (r: Self) {
        self + o
    }

    fn minus(self, o: Self) -> (r: Self) {
        self - o
    }

    fn half(self) -> (r: Self) {
        self / qcast::<i32, u16>(2i32)
    }
}

impl Integral for u32 {
    open spec fn val(self) -> int {
        self as int
    }

    open spec fn of(v: int) -> Self {
        v as u32
    }

    open spec fn lowest() -> int {
        u32::MIN as int
    }

    open spec fn highest() -> int {
        u32::MAX as int
    }

    proof fn lemma_model(self, v: int) {
    }
}

impl BNum for u32 {
    fn gt(self, o: Self) -> (r: bool) {
        self > o
    }

    fn plus(self, o: Self) -> (r: Self) {
        self + o
    }

    fn minus(self, o: Self) -> (r: Self) {
        self - o
    }

    fn half(self) -> (r: Self) {
        self / qcast::<i32, u32>(2i32)
    }
}

impl Integral for u64 {
    open spec fn val(self) -> int {
        self as int
    }

    open spec fn of(v: int) -> Self {
        v as u64
    }

    open spec fn lowest() -> int {
        u64::MIN as int
    }

    open spec fn highest() -> int {
        u64::MAX as int
    }

    proof fn lemma_model(self, v: int) {
    }
}

impl BNum for u64 {
    fn gt(self, o: Self) -> (r: bool) {
        self > o
    }

    fn plus(self, o: Self) -> (r: Self) {
        self + o
    }

    fn minus(self, o: Self) -> (r: Self) {
        self - o
    }

    fn half(self) -> (r: Self) {
        self / qcast::<i32, u64>(2i32)
    }
}

impl Integral for u128 {
    open spec fn val(self) -> int {
        self as int
    }

    open spec fn of(v: int) -> Self {
        v as u128
    }

    open spec fn lowest() -> int {
        u128::MIN as int
    }

    open spec fn highest() -> int {
        u128::MAX as int
    }

    proof fn lemma_model(self, v: int) {
    }
}

impl BNum for u128 {
    fn gt(self, o: Self) -> (r: bool) {
        self > o
    }

    fn plus(self, o: Self) -> (r: Self) {
        self + o
    }

    fn minus(self, o: Self) -> (r: Self) {
        self - o
    }

    fn half(self) -> (r: Self) {
        self / qcast::<i32, u128>(2i32)
    }
}

impl Integral for usize {
    open spec fn val(self) -> int {
        self as int
    }

    open spec fn of(v: int) -> Self {
        v as usize
    }

    open spec fn lowest() -> int {
        usize::MIN as int
    }

    open spec fn highest() -> int {
        usize::MAX as int
    }

    proof fn lemma_model(self, v: int) {
    }
}

impl BNum for usize {
    fn gt(self, o: Self) -> (r: bool) {
        self > o
    }

    fn plus(self, o: Self) -> (r: Self) {
        self + o
    }

    fn minus(self, o: Self) -> (r: Self) {
        self - o
    }

    fn half(self) -> (r: Self) {
        self / qcast::<i32, usize>(2i32)
    }
}

} // verus!
