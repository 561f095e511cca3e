//! The edit buffer used while a timer is being edited: seven bounded digit
//! registers (hundreds/tens/units of hours, tens/units of minutes and
//! seconds), a free-text description buffer, and the cyclic navigation order
//! over the eight editable fields.

use vstd::prelude::*;

use crate::codec::dec_digits;
use crate::codec::u64_to_string;
use crate::strutil::pop_char;
use crate::strutil::push_char;
use crate::strutil::str_to_chars;

verus! {

// ---------------------------------------------------------------------------
// Field navigation
// ---------------------------------------------------------------------------

#[derive(PartialEq, Eq, Hash, Clone, Copy, Debug, Structural)]
pub enum EditField {
    Description,
    Hours1,
    Hours2,
    Hours3,
    Minutes1,
    Minutes2,
    Seconds1,
    Seconds2,
}

/// The successor in the fixed cyclic field order
/// Description -> H1 -> H2 -> H3 -> M1 -> M2 -> S1 -> S2 -> Description.
pub open spec fn spec_next_field(f: EditField) -> EditField {
    match f {
        EditField::Description => EditField::Hours1,
        EditField::Hours1 => EditField::Hours2,
        EditField::Hours2 => EditField::Hours3,
        EditField::Hours3 => EditField::Minutes1,
        EditField::Minutes1 => EditField::Minutes2,
        EditField::Minutes2 => EditField::Seconds1,
        EditField::Seconds1 => EditField::Seconds2,
        EditField::Seconds2 => EditField::Description,
    }
}

/// The predecessor in the same cycle.
pub open spec fn spec_previous_field(f: EditField) -> EditField {
    match f {
        EditField::Description => EditField::Seconds2,
        EditField::Hours1 => EditField::Description,
        EditField::Hours2 => EditField::Hours1,
        EditField::Hours3 => EditField::Hours2,
        EditField::Minutes1 => EditField::Hours3,
        EditField::Minutes2 => EditField::Minutes1,
        EditField::Seconds1 => EditField::Minutes2,
        EditField::Seconds2 => EditField::Seconds1,
    }
}

pub fn next_field(f: EditField) -> (r: EditField)
    ensures
        r == spec_next_field(f),
{
    match f {
        EditField::Description => EditField::Hours1,
        EditField::Hours1 => EditField::Hours2,
        EditField::Hours2 => EditField::Hours3,
        EditField::Hours3 => EditField::Minutes1,
        EditField::Minutes1 => EditField::Minutes2,
        EditField::Minutes2 => EditField::Seconds1,
        EditField::Seconds1 => EditField::Seconds2,
        EditField::Seconds2 => EditField::Description,
    }
}

pub fn previous_field(f: EditField) -> (r: EditField)
    ensures
        r == spec_previous_field(f),
{
    match f {
        EditField::Description => EditField::Seconds2,
        EditField::Hours1 => EditField::Description,
        EditField::Hours2 => EditField::Hours1,
        EditField::Hours3 => EditField::Hours2,
        EditField::Minutes1 => EditField::Hours3,
        EditField::Minutes2 => EditField::Minutes1,
        EditField::Seconds1 => EditField::Minutes2,
        EditField::Seconds2 => EditField::Seconds1,
    }
}

/// `k` forward steps along the field cycle.
pub open spec fn iter_next_field(f: EditField, k: nat) -> EditField
    decreases k,
{
    if k == 0 {
        f
    } else {
        spec_next_field(iter_next_field(f, (k - 1) as nat))
    }
}

/// `k` backward steps along the field cycle.
pub open spec fn iter_previous_field(f: EditField, k: nat) -> EditField
    decreases k,
{
    if k == 0 {
        f
    } else {
        spec_previous_field(iter_previous_field(f, (k - 1) as nat))
    }
}

/// Law: eight forward steps from any field return to that field.
pub proof fn lemma_next_field_cycle(f: EditField)
    ensures
        iter_next_field(f, 8) == f,
{
    reveal_with_fuel(iter_next_field, 9);
}

/// Law: eight backward steps from any field return to that field.
pub proof fn lemma_previous_field_cycle(f: EditField)
    ensures
        iter_previous_field(f, 8) == f,
{
    reveal_with_fuel(iter_previous_field, 9);
}

/// Law: the backward step inverts the forward step, and conversely.
pub proof fn lemma_previous_inverts_next(f: EditField)
    ensures
        spec_previous_field(spec_next_field(f)) == f,
        spec_next_field(spec_previous_field(f)) == f,
{
}

// ---------------------------------------------------------------------------
// A single bounded digit register
// ---------------------------------------------------------------------------

/// One digit position: a value held in `[0, modulus)`.
pub struct EditValue {
    pub value: i64,
    pub modulus: i64,
}

/// One cyclic increment of a register value.
pub open spec fn spec_inc(v: int, m: int) -> int {
    (v + 1) % m
}

/// One cyclic decrement of a register value.
pub open spec fn spec_dec(v: int, m: int) -> int {
    (v + m - 1) % m
}

/// `k` consecutive cyclic increments.
pub open spec fn iter_inc(v: int, m: int, k: nat) -> int
    decreases k,
{
    if k == 0 {
        v
    } else {
        spec_inc(iter_inc(v, m, (k - 1) as nat), m)
    }
}

/// `k` consecutive cyclic decrements.
pub open spec fn iter_dec(v: int, m: int, k: nat) -> int
    decreases k,
{
    if k == 0 {
        v
    } else {
        spec_dec(iter_dec(v, m, (k - 1) as nat), m)
    }
}

impl EditValue {
    pub open spec fn wf(self) -> bool {
        0 < self.modulus <= 10 && 0 <= self.value < self.modulus
    }

    pub fn new(value: i64, modulus: i64) -> (r: EditValue)
        requires
            0 < modulus <= 10,
            0 <= value < modulus,
        ensures
            r.value == value,
            r.modulus == modulus,
            r.wf(),
    {
        EditValue { value, modulus }
    }

    /// Direct digit entry: an in-range value is stored as given, an
    /// out-of-range one is clamped to the largest representable value.
    pub fn set_value(&mut self, value: i64)
        requires
            old(self).wf(),
            value >= 0,
        ensures
            final(self).modulus == old(self).modulus,
            final(self).value == if value < old(self).modulus {
                value as int
            } else {
                old(self).modulus - 1
            },
            final(self).wf(),
    {
        if value < self.modulus {
            self.value = value;
        } else {
            self.value = self.modulus - 1;
        }
    }

    /// Relative adjustment: wraps around the modulus instead of clamping.
    pub fn inc_value(&mut self)
        requires
            old(self).wf(),
        ensures
            final(self).modulus == old(self).modulus,
            final(self).value == spec_inc(old(self).value as int, old(self).modulus as int),
            final(self).wf(),
    {
        let next: i64 = self.value + 1;
        if next == self.modulus {
            self.value = 0;
            proof {
                assert(spec_inc(old(self).value as int, old(self).modulus as int) == 0) by {
                    vstd::arithmetic::div_mod::lemma_mod_self_0(old(self).modulus as int);
                };
            }
        } else {
            self.value = next;
            proof {
                vstd::arithmetic::div_mod::lemma_small_mod(
                    next as nat,
                    old(self).modulus as nat,
                );
            }
        }
    }

    /// Relative adjustment: wraps around the modulus instead of clamping.
    pub fn dec_value(&mut self)
        requires
            old(self).wf(),
        ensures
            final(self).modulus == old(self).modulus,
            final(self).value == spec_dec(old(self).value as int, old(self).modulus as int),
            final(self).wf(),
    {
        let ghost m = old(self).modulus as int;
        let ghost v = old(self).value as int;
        if self.value == 0 {
            self.value = self.modulus - 1;
            proof {
                vstd::arithmetic::div_mod::lemma_small_mod((m - 1) as nat, m as nat);
            }
        } else {
            self.value = self.value - 1;
            proof {
                vstd::arithmetic::div_mod::lemma_mod_add_multiples_vanish(v - 1, m);
                vstd::arithmetic::div_mod::lemma_small_mod((v - 1) as nat, m as nat);
            }
        }
    }

    /// The register's single decimal digit as a string.
    pub fn value_as_string(&self) -> (s: String)
        requires
            self.wf(),
        ensures
            s@ == dec_digits(self.value as nat),
            s@.len() == 1,
    {
        u64_to_string(self.value as u64)
    }
}

/// Law: with modulus `M`, `M` consecutive increments return a register value
/// to where it started (a full cyclic round trip).
pub proof fn lemma_inc_full_cycle(ev: EditValue)
    requires
        ev.wf(),
    ensures
        iter_inc(ev.value as int, ev.modulus as int, ev.modulus as nat) == ev.value,
{
    let v = ev.value as int;
    let m = ev.modulus as int;
    lemma_iter_inc_mod(v, m, m as nat);
    vstd::arithmetic::div_mod::lemma_mod_add_multiples_vanish(v, m);
    vstd::arithmetic::div_mod::lemma_small_mod(v as nat, m as nat);
}

/// Law: with modulus `M`, `M` consecutive decrements likewise return a
/// register value to where it started.
pub proof fn lemma_dec_full_cycle(ev: EditValue)
    requires
        ev.wf(),
    ensures
        iter_dec(ev.value as int, ev.modulus as int, ev.modulus as nat) == ev.value,
{
    let v = ev.value as int;
    let m = ev.modulus as int;
    lemma_iter_dec_mod(v, m, m as nat);
    vstd::arithmetic::div_mod::lemma_mod_add_multiples_vanish(v - m, m);
    vstd::arithmetic::div_mod::lemma_small_mod(v as nat, m as nat);
}

proof fn lemma_iter_dec_mod(v: int, m: int, k: nat)
    requires
        0 < m,
        0 <= v < m,
    ensures
        iter_dec(v, m, k) == (v - k) % m,
    decreases k,
{
    if k == 0 {
        vstd::arithmetic::div_mod::lemma_small_mod(v as nat, m as nat);
    } else {
        lemma_iter_dec_mod(v, m, (k - 1) as nat);
        let prev = (v - (k - 1)) % m;
        vstd::arithmetic::div_mod::lemma_add_mod_noop_right(prev, m - 1, m);
        vstd::arithmetic::div_mod::lemma_add_mod_noop(v - k + 1, m - 1, m);
        assert(iter_dec(v, m, k) == (prev + m - 1) % m);
        vstd::arithmetic::div_mod::lemma_mod_add_multiples_vanish(v - k, m);
        assert(v - k + 1 + (m - 1) == m + (v - k));
    }
}

proof fn lemma_iter_inc_mod(v: int, m: int, k: nat)
    requires
        0 < m,
        0 <= v < m,
    ensures
        iter_inc(v, m, k) == (v + k) % m,
    decreases k,
{
    if k == 0 {
        vstd::arithmetic::div_mod::lemma_small_mod(v as nat, m as nat);
    } else {
        lemma_iter_inc_mod(v, m, (k - 1) as nat);
        let prev = (v + k - 1) % m;
        vstd::arithmetic::div_mod::lemma_add_mod_noop_right(prev, 1, m);
        vstd::arithmetic::div_mod::lemma_add_mod_noop(v + k - 1, 1, m);
        assert(iter_inc(v, m, k) == (prev + 1) % m);
    }
}

// ---------------------------------------------------------------------------
// The full edit buffer
// ---------------------------------------------------------------------------

/// Scratch state for the timer editor: the description text plus the seven
/// digit registers H1 H2 H3 : M1 M2 : S1 S2.
pub struct EditValues {
    pub descript: String,
    pub hours1: EditValue,
    pub hours2: EditValue,
    pub hours3: EditValue,
    pub minutes1: EditValue,
    pub minutes2: EditValue,
    pub seconds1: EditValue,
    pub seconds2: EditValue,
}

pub open spec fn keeps_line(c: char) -> bool {
    c != '\n' && c != '\r'
}

/// The register values that seeding the buffer from `desc` and `length`
/// produces: the decimal digits of the hour, minute and second components,
/// with the leading hours digit clamped at nine.
pub open spec fn edit_buffer_for(ev: EditValues, desc: Seq<char>, length: u64) -> bool {
    &&& ev.descript@ == desc.filter(|c: char| keeps_line(c))
    &&& ev.hours1.value == if length / 3600 < 1000 {
        (length as int / 3600) / 100
    } else {
        9int
    }
    &&& ev.hours2.value == ((length as int / 3600) / 10) % 10
    &&& ev.hours3.value == (length as int / 3600) % 10
    &&& ev.minutes1.value == ((length as int / 60) % 60) / 10
    &&& ev.minutes2.value == ((length as int / 60) % 60) % 10
    &&& ev.seconds1.value == (length as int % 60) / 10
    &&& ev.seconds2.value == (length as int % 60) % 10
}

/// The buffer a newly added timer starts from: five minutes, "New Timer".
pub open spec fn is_default_edit_buffer(ev: EditValues) -> bool {
    &&& ev.descript@ == "New Timer"@
    &&& ev.hours1.value == 0
    &&& ev.hours2.value == 0
    &&& ev.hours3.value == 0
    &&& ev.minutes1.value == 0
    &&& ev.minutes2.value == 5
    &&& ev.seconds1.value == 0
    &&& ev.seconds2.value == 0
}

impl EditValues {
    pub open spec fn wf(self) -> bool {
        &&& self.hours1.wf() && self.hours1.modulus == 10
        &&& self.hours2.wf() && self.hours2.modulus == 10
        &&& self.hours3.wf() && self.hours3.modulus == 10
        &&& self.minutes1.wf() && self.minutes1.modulus == 6
        &&& self.minutes2.wf() && self.minutes2.modulus == 10
        &&& self.seconds1.wf() && self.seconds1.modulus == 6
        &&& self.seconds2.wf() && self.seconds2.modulus == 10
    }

    /// The duration, in seconds, described by the seven digit registers.
    pub open spec fn spec_duration(self) -> int {
        (100 * self.hours1.value + 10 * self.hours2.value + self.hours3.value) * 3600 + (10
            * self.minutes1.value + self.minutes2.value) * 60 + 10 * self.seconds1.value
            + self.seconds2.value
    }

    /// The register at a non-description field.
    pub open spec fn spec_get(self, field: EditField) -> EditValue {
        match field {
            EditField::Hours1 => self.hours1,
            EditField::Hours2 => self.hours2,
            EditField::Hours3 => self.hours3,
            EditField::Minutes1 => self.minutes1,
            EditField::Minutes2 => self.minutes2,
            EditField::Seconds1 => self.seconds1,
            EditField::Seconds2 => self.seconds2,
            EditField::Description => self.hours1,
        }
    }

    /// This buffer with the register at a non-description field replaced.
    pub open spec fn spec_with(self, field: EditField, ev: EditValue) -> EditValues {
        match field {
            EditField::Hours1 => EditValues { hours1: ev, ..self },
            EditField::Hours2 => EditValues { hours2: ev, ..self },
            EditField::Hours3 => EditValues { hours3: ev, ..self },
            EditField::Minutes1 => EditValues { minutes1: ev, ..self },
            EditField::Minutes2 => EditValues { minutes2: ev, ..self },
            EditField::Seconds1 => EditValues { seconds1: ev, ..self },
            EditField::Seconds2 => EditValues { seconds2: ev, ..self },
            EditField::Description => self,
        }
    }

    /// Seed the buffer from an existing timer's description and length.
    /// Line terminators are dropped from the description, and a length of a
    /// thousand hours or more clamps the leading hours digit.
    pub fn new(descript: String, length: u64) -> (r: EditValues)
        ensures
            r.wf(),
            edit_buffer_for(r, descript@, length),
    {
        let chars = str_to_chars(descript.as_str());
        let mut clean = String::new();
        let mut i: usize = 0;
        while i < chars.len()
            invariant
                i <= chars@.len(),
                chars@ == descript@,
                clean@ == descript@.subrange(0, i as int).filter(|c: char| keeps_line(c)),
            decreases chars@.len() - i,
        {
            let ghost pre = descript@.subrange(0, i as int);
            let c = chars[i];
            if c != '\n' && c != '\r' {
                push_char(&mut clean, c);
            }
            i += 1;
            proof {
                assert(descript@.subrange(0, i as int).drop_last() =~= pre);
                reveal_with_fuel(Seq::filter, 2);
                assert(clean@ == descript@.subrange(0, i as int).filter(
                    |c: char| keeps_line(c),
                ));
            }
        }
        proof {
            assert(descript@.subrange(0, descript@.len() as int) =~= descript@);
        }

        let total_hours: u64 = length / 3600;
        let h1: u64 = if total_hours >= 1000 {
            9
        } else {
            total_hours / 100
        };
        let h2: u64 = (total_hours / 10) % 10;
        let h3: u64 = total_hours % 10;
        let mins: u64 = (length / 60) % 60;
        let m1: u64 = mins / 10;
        let m2: u64 = mins % 10;
        let secs: u64 = length % 60;
        let s1: u64 = secs / 10;
        let s2: u64 = secs % 10;
        proof {
            assert(total_hours < 1000 ==> total_hours / 100 < 10) by (nonlinear_arith);
            assert(mins < 60 ==> mins / 10 < 6) by (nonlinear_arith);
            assert(secs < 60 ==> secs / 10 < 6) by (nonlinear_arith);
        }
        EditValues {
            descript: clean,
            hours1: EditValue::new(h1 as i64, 10),
            hours2: EditValue::new(h2 as i64, 10),
            hours3: EditValue::new(h3 as i64, 10),
            minutes1: EditValue::new(m1 as i64, 6),
            minutes2: EditValue::new(m2 as i64, 10),
            seconds1: EditValue::new(s1 as i64, 6),
            seconds2: EditValue::new(s2 as i64, 10),
        }
    }

    /// The buffer a newly added timer starts from: five minutes, described as
    /// "New Timer".
    pub fn default() -> (r: EditValues)
        ensures
            r.wf(),
            is_default_edit_buffer(r),
    {
        EditValues {
            descript: "New Timer".to_owned(),
            hours1: EditValue::new(0, 10),
            hours2: EditValue::new(0, 10),
            hours3: EditValue::new(0, 10),
            minutes1: EditValue::new(0, 6),
            minutes2: EditValue::new(5, 10),
            seconds1: EditValue::new(0, 6),
            seconds2: EditValue::new(0, 10),
        }
    }

    /// The duration, in seconds, currently described by the digit registers.
    pub fn to_duration(&self) -> (d: u64)
        requires
            self.wf(),
        ensures
            d == self.spec_duration(),
            d < 3600000,
    {
        let hours: u64 = 100 * (self.hours1.value as u64) + 10 * (self.hours2.value as u64)
            + (self.hours3.value as u64);
        let minutes: u64 = 10 * (self.minutes1.value as u64) + (self.minutes2.value as u64);
        let seconds: u64 = 10 * (self.seconds1.value as u64) + (self.seconds2.value as u64);
        hours * 3600 + minutes * 60 + seconds
    }

    /// Direct digit entry into the register at `field`.
    pub fn set_field(&mut self, field: EditField, value: i64)
        requires
            old(self).wf(),
            !(field is Description),
            value >= 0,
        ensures
            final(self).wf(),
            final(self).descript == old(self).descript,
            *final(self) == old(self).spec_with(
                field,
                EditValue {
                    value: if value < old(self).spec_get(field).modulus {
                        value
                    } else {
                        (old(self).spec_get(field).modulus - 1) as i64
                    },
                    modulus: old(self).spec_get(field).modulus,
                },
            ),
    {
        match field {
            EditField::Hours1 => self.hours1.set_value(value),
            EditField::Hours2 => self.hours2.set_value(value),
            EditField::Hours3 => self.hours3.set_value(value),
            EditField::Minutes1 => self.minutes1.set_value(value),
            EditField::Minutes2 => self.minutes2.set_value(value),
            EditField::Seconds1 => self.seconds1.set_value(value),
            EditField::Seconds2 => self.seconds2.set_value(value),
            EditField::Description => {},
        }
    }

    /// Cyclic increment of the register at `field`.
    pub fn inc_field(&mut self, field: EditField)
        requires
            old(self).wf(),
            !(field is Description),
        ensures
            final(self).wf(),
            final(self).descript == old(self).descript,
            *final(self) == old(self).spec_with(
                field,
                EditValue {
                    value: spec_inc(
                        old(self).spec_get(field).value as int,
                        old(self).spec_get(field).modulus as int,
                    ) as i64,
                    modulus: old(self).spec_get(field).modulus,
                },
            ),
    {
        match field {
            EditField::Hours1 => self.hours1.inc_value(),
            EditField::Hours2 => self.hours2.inc_value(),
            EditField::Hours3 => self.hours3.inc_value(),
            EditField::Minutes1 => self.minutes1.inc_value(),
            EditField::Minutes2 => self.minutes2.inc_value(),
            EditField::Seconds1 => self.seconds1.inc_value(),
            EditField::Seconds2 => self.seconds2.inc_value(),
            EditField::Description => {},
        }
    }

    /// Cyclic decrement of the register at `field`.
    pub fn dec_field(&mut self, field: EditField)
        requires
            old(self).wf(),
            !(field is Description),
        ensures
            final(self).wf(),
            final(self).descript == old(self).descript,
            *final(self) == old(self).spec_with(
                field,
                EditValue {
                    value: spec_dec(
                        old(self).spec_get(field).value as int,
                        old(self).spec_get(field).modulus as int,
                    ) as i64,
                    modulus: old(self).spec_get(field).modulus,
                },
            ),
    {
        match field {
            EditField::Hours1 => self.hours1.dec_value(),
            EditField::Hours2 => self.hours2.dec_value(),
            EditField::Hours3 => self.hours3.dec_value(),
            EditField::Minutes1 => self.minutes1.dec_value(),
            EditField::Minutes2 => self.minutes2.dec_value(),
            EditField::Seconds1 => self.seconds1.dec_value(),
            EditField::Seconds2 => self.seconds2.dec_value(),
            EditField::Description => {},
        }
    }

    /// Free-text entry: append one character to the description.
    pub fn push_description(&mut self, c: char)
        ensures
            final(self).descript@ == old(self).descript@.push(c),
            final(self).hours1 == old(self).hours1,
            final(self).hours2 == old(self).hours2,
            final(self).hours3 == old(self).hours3,
            final(self).minutes1 == old(self).minutes1,
            final(self).minutes2 == old(self).minutes2,
            final(self).seconds1 == old(self).seconds1,
            final(self).seconds2 == old(self).seconds2,
    {
        push_char(&mut self.descript, c);
    }

    /// Free-text entry: drop the last character of the description, if any.
    pub fn backspace_description(&mut self)
        ensures
            final(self).descript@ == if old(self).descript@.len() == 0 {
                old(self).descript@
            } else {
                old(self).descript@.drop_last()
            },
            final(self).hours1 == old(self).hours1,
            final(self).hours2 == old(self).hours2,
            final(self).hours3 == old(self).hours3,
            final(self).minutes1 == old(self).minutes1,
            final(self).minutes2 == old(self).minutes2,
            final(self).seconds1 == old(self).seconds1,
            final(self).seconds2 == old(self).seconds2,
    {
        let _ = pop_char(&mut self.descript);
    }
}

/// Law: seeding the registers from any duration under a thousand hours and
/// reading them back as a duration returns exactly the seconds that went in.
pub proof fn lemma_duration_roundtrip(ev: EditValues, desc: Seq<char>, length: u64)
    requires
        ev.wf(),
        length < 3600000,
        edit_buffer_for(ev, desc, length),
    ensures
        ev.spec_duration() == length,
{
    let x = length as int;
    let h = x / 3600;
    let m = (x / 60) % 60;
    let s = x % 60;
    // hour digits recompose to the hour count
    vstd::arithmetic::div_mod::lemma_fundamental_div_mod(h, 10);
    vstd::arithmetic::div_mod::lemma_fundamental_div_mod(h / 10, 10);
    vstd::arithmetic::div_mod::lemma_div_denominator(h, 10, 10);
    assert(100 * (h / 100) + 10 * ((h / 10) % 10) + h % 10 == h);
    // minute and second digits recompose
    vstd::arithmetic::div_mod::lemma_fundamental_div_mod(m, 10);
    vstd::arithmetic::div_mod::lemma_fundamental_div_mod(s, 10);
    // hours, minutes and seconds recompose to the full duration
    vstd::arithmetic::div_mod::lemma_fundamental_div_mod(x, 60);
    vstd::arithmetic::div_mod::lemma_fundamental_div_mod(x / 60, 60);
    vstd::arithmetic::div_mod::lemma_div_denominator(x, 60, 60);
    assert(3600 * h + 60 * m + s == x);
}

} // verus!
