use rand::Rng;
use vstd::prelude::*;

verus! {

/// Relies on rand::Rng::gen_range over the thread-local generator: for a non-empty
/// inclusive range it returns a value inside the range (it panics only on an empty one).
#[verifier::external_body]
fn thread_range(lo: i64, hi: i64) -> (r: i64)
    requires
        lo <= hi,
    ensures
        lo <= r <= hi,
{
    rand::thread_rng().gen_range(lo..=hi)
}

/// Relies on rand::Rng::gen_ratio over the thread-local generator: it panics unless
/// `0 < den` and `num <= den`, is always true when `num == den` and always false when
/// `num == 0`.
#[verifier::external_body]
fn thread_ratio(num: u32, den: u32) -> (r: bool)
    requires
        0 < den,
        num <= den,
    ensures
        num == 0 ==> !r,
        num == den ==> r,
{
    rand::thread_rng().gen_ratio(num, den)
}

/// The largest span `hi - lo` that a single draw accepts.
pub const MAX_SPAN: i64 = 1000000;

/// Value of a scripted roll `v` drawn from the inclusive range `lo..=hi`.
pub open spec fn roll_in(v: u64, lo: int, hi: int) -> int {
    lo + (v as int) % (hi - lo + 1)
}

/// Outcome of a scripted roll `v` for a chance of `num` in `den`.
pub open spec fn roll_chance(v: u64, num: int, den: int) -> bool {
    (v as int) % den < num
}

/// The source of every random draw of the simulation.
///
/// A die first replays the rolls it was scripted with, in order, and draws from the
/// thread-local generator once they are used up; `Dice::live()` has no script at all.
pub struct Dice {
    rolls: Vec<u64>,
    next: usize,
}

impl Dice {
    #[verifier::type_invariant]
    spec fn inv(self) -> bool {
        self.next <= self.rolls.len()
    }

    /// The scripted rolls not used yet.
    pub closed spec fn pending(self) -> Seq<u64> {
        self.rolls@.subrange(self.next as int, self.rolls@.len() as int)
    }

    /// A die that draws from the thread-local generator.
    pub fn live() -> (d: Dice)
        ensures
            d.pending() == Seq::<u64>::empty(),
    {
        let d = Dice { rolls: Vec::new(), next: 0 };
        assert(d.pending() =~= Seq::<u64>::empty());
        d
    }

    /// A die that replays `rolls` before drawing from the thread-local generator.
    pub fn scripted(rolls: Vec<u64>) -> (d: Dice)
        ensures
            d.pending() == rolls@,
    {
        let d = Dice { rolls, next: 0 };
        assert(d.pending() =~= d.rolls@);
        d
    }

    /// Takes the next scripted roll, if any is left.
    fn take(&mut self) -> (v: Option<u64>)
        ensures
            old(self).pending().len() == 0 ==> v is None
                && final(self).pending() == old(self).pending(),
            old(self).pending().len() > 0 ==> v == Some(old(self).pending()[0])
                && final(self).pending() == old(self).pending().drop_first(),
    {
        proof {
            use_type_invariant(&*self);
        }
        if self.next < self.rolls.len() {
            let v = self.rolls[self.next];
            self.next = self.next + 1;
            assert(self.pending() =~= old(self).pending().drop_first());
            Some(v)
        } else {
            None
        }
    }

    /// A uniform draw from the inclusive range `lo..=hi`.
    pub fn range(&mut self, lo: i64, hi: i64) -> (r: i64)
        requires
            lo <= hi,
            hi - lo <= MAX_SPAN,
        ensures
            lo <= r <= hi,
            old(self).pending().len() == 0 ==> final(self).pending().len() == 0,
            old(self).pending().len() > 0 ==> r == roll_in(old(self).pending()[0], lo as int, hi as int)
                && final(self).pending() == old(self).pending().drop_first(),
    {
        match self.take() {
            Some(v) => {
                let span: u64 = (hi - lo + 1) as u64;
                let k: u64 = v % span;
                lo + k as i64
            },
            None => thread_range(lo, hi),
        }
    }

    /// True with a chance of `num` in `den`.
    pub fn chance(&mut self, num: u32, den: u32) -> (r: bool)
        requires
            0 < den,
            num <= den,
        ensures
            num == 0 ==> !r,
            num == den ==> r,
            old(self).pending().len() == 0 ==> final(self).pending().len() == 0,
            old(self).pending().len() > 0 ==> r == roll_chance(old(self).pending()[0], num as int, den as int)
                && final(self).pending() == old(self).pending().drop_first(),
    {
        match self.take() {
            Some(v) => v % (den as u64) < num as u64,
            None => thread_ratio(num, den),
        }
    }
}

} // verus!
