use vstd::prelude::*;

verus! {

/// The I/O error type of std, carried through opaquely: positioning on a
/// buffer may report one.
#[verifier::external_type_specification]
#[verifier::external_body]
pub struct ExIoError(std::io::Error);

/// What a cursor-bearing buffer exposes to the code that reads from it.
///
/// `analysed` is the whole sequence under analysis and `position` the index
/// of the next unconsumed element.
pub trait Analyser<T>: Sized {
    spec fn analysed(&self) -> Seq<T>;

    spec fn position(&self) -> nat;

    /// Whether `set_pos(p)` is certain to succeed on this buffer.
    spec fn positioning_succeeds(&self, p: usize) -> bool;

    /// The entire sequence being analysed, independent of the cursor.
    fn contents(&self) -> (r: &[T])
        ensures
            r@ == self.analysed(),
    ;

    /// The current cursor position.
    fn pos(&self) -> (r: usize)
        ensures
            r as nat == self.position(),
    ;

    /// Moves the cursor to `position`; on failure the buffer is unchanged.
    fn set_pos(&mut self, position: usize) -> (r: Result<(), std::io::Error>)
        ensures
            old(self).positioning_succeeds(position) ==> r is Ok,
            r is Ok ==> final(self).position() == position as nat
                && final(self).analysed() == old(self).analysed(),
            r is Err ==> final(self).position() == old(self).position()
                && final(self).analysed() == old(self).analysed(),
    ;

    /// Consumes the buffer, handing out the sequence it held.
    fn drain(self) -> (r: Vec<T>)
        ensures
            r@ == self.analysed(),
    ;

    /// Whether every element has been consumed: the cursor stands at or
    /// past the end of the sequence.
    fn is_end(&self) -> (r: bool)
        ensures
            r == (self.position() >= self.analysed().len()),
    ;
}

} // verus!
