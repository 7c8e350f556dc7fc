use vstd::prelude::*;

verus! {

/// Something that can be switched on and off.
pub trait Led {
    /// Whether the light is on.
    spec fn lit(&self) -> bool;

    /// How many more switches the light is sure to accept.
    spec fn switches_left(&self) -> int;

    /// Switches the light on.
    fn turn_on(&mut self)
        requires
            old(self).switches_left() >= 1,
        ensures
            final(self).lit(),
            final(self).switches_left() >= old(self).switches_left() - 1,
    ;

    /// Switches the light off.
    fn turn_off(&mut self)
        requires
            old(self).switches_left() >= 1,
        ensures
            !final(self).lit(),
            final(self).switches_left() >= old(self).switches_left() - 1,
    ;

    /// Whether the light is on.
    fn is_on(&self) -> (on: bool)
        ensures
            on == self.lit(),
    ;
}

/// A light whose state changes are reported by the caller.
pub struct ConsoleLed {
    pub on: bool,
}

/// A light that counts how often it changed state.
pub struct MemoryLed {
    pub on: bool,
    pub toggle_count: u32,
}

impl Led for ConsoleLed {
    open spec fn lit(&self) -> bool {
        self.on
    }

    open spec fn switches_left(&self) -> int {
        u32::MAX as int
    }

    fn turn_on(&mut self) {
        if !self.on {
            self.on = true;
        }
    }

    fn turn_off(&mut self) {
        if self.on {
            self.on = false;
        }
    }

    fn is_on(&self) -> (on: bool) {
        self.on
    }
}

impl Led for MemoryLed {
    open spec fn lit(&self) -> bool {
        self.on
    }

    open spec fn switches_left(&self) -> int {
        u32::MAX - self.toggle_count
    }

    /// Switches on, counting a change when the light was off.
    fn turn_on(&mut self)
        ensures
            final(self).toggle_count == old(self).toggle_count + if old(self).on {
                0int
            } else {
                1int
            },
    {
        if !self.on {
            self.on = true;
            self.toggle_count += 1;
        }
    }

    /// Switches off, counting a change when the light was on.
    fn turn_off(&mut self)
        ensures
            final(self).toggle_count == old(self).toggle_count + if old(self).on {
                1int
            } else {
                0int
            },
    {
        if self.on {
            self.on = false;
            self.toggle_count += 1;
        }
    }

    fn is_on(&self) -> (on: bool) {
        self.on
    }
}

/// Switches a light on, then off, and reports the state seen after each
/// switch: on, then off.
pub fn blink_once<T: Led>(led: &mut T) -> (seen: (bool, bool))
    requires
        old(led).switches_left() >= 2,
    ensures
        seen == (true, false),
        !final(led).lit(),
{
    led.turn_on();
    let first = led.is_on();
    led.turn_off();
    let second = led.is_on();
    (first, second)
}

} // verus!
