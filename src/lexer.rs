use vstd::prelude::*;

use crate::read::Analyser;

verus! {

/// A buffer of elements under analysis together with the cursor that marks
/// the next unconsumed element.
pub struct Lexer<T: Sized + PartialEq + Copy> {
    cursor: usize,
    contents: Vec<T>,
}

impl<T: Sized + PartialEq + Copy> Lexer<T> {
    /// The elements held.
    pub closed spec fn spec_contents(&self) -> Seq<T> {
        self.contents@
    }

    /// The cursor.
    pub closed spec fn spec_cursor(&self) -> nat {
        self.cursor as nat
    }

    /// How many elements lie between the cursor and the end of the buffer.
    pub open spec fn unconsumed(&self) -> nat {
        if self.spec_cursor() <= self.spec_contents().len() {
            (self.spec_contents().len() - self.spec_cursor()) as nat
        } else {
            0
        }
    }

    /// Builds a buffer holding a copy of `content`, with the cursor at its start.
    pub fn new(content: &[T]) -> (r: Self)
        ensures
            r.spec_contents() == content@,
            r.spec_cursor() == 0,
            r.analysed() == content@,
            r.position() == 0,
    {
        Self { cursor: 0, contents: vstd::slice::slice_to_vec(content) }
    }

    /// Removes the elements at indices `range.start..range.end` and returns
    /// them in order; the elements before and after the range close up.
    ///
    /// A cursor inside the removed range goes back to `range.start`; one
    /// strictly past `range.end` is moved back by `range.end` (not by the
    /// length of the range); one before the range, or exactly at its end,
    /// stays where it was.
    pub fn extract(&mut self, range: std::ops::Range<usize>) -> (r: Vec<T>)
        requires
            range.start <= range.end,
            range.end <= old(self).spec_contents().len(),
        ensures
            r@ == old(self).spec_contents().subrange(range.start as int, range.end as int),
            final(self).spec_contents() == old(self).spec_contents().subrange(
                0,
                range.start as int,
            ) + old(self).spec_contents().subrange(
                range.end as int,
                old(self).spec_contents().len() as int,
            ),
            old(self).spec_cursor() <= range.start || old(self).spec_cursor() == range.end
                ==> final(self).spec_cursor() == old(self).spec_cursor(),
            range.start <= old(self).spec_cursor() < range.end ==> final(self).spec_cursor()
                == range.start,
            range.end < old(self).spec_cursor() ==> final(self).spec_cursor() == old(
                self,
            ).spec_cursor() - range.end,
    {
        let start = range.start;
        let end = range.end;
        let len = self.contents.len();
        let mut removed: Vec<T> = Vec::new();
        let mut kept: Vec<T> = Vec::new();
        let mut i: usize = 0;
        while i < len
            invariant
                start <= end <= len == self.contents@.len(),
                i <= len,
                removed@ == self.contents@.subrange(
                    start as int,
                    if i <= start { start as int } else if i <= end { i as int } else { end as int },
                ),
                kept@ == self.contents@.subrange(0, if i <= start { i as int } else { start as int })
                    + self.contents@.subrange(end as int, if i <= end { end as int } else { i as int }),
            decreases len - i,
        {
            let x = self.contents[i];
            if start <= i && i < end {
                removed.push(x);
            } else {
                kept.push(x);
            }
            i = i + 1;
        }
        assert(removed@ =~= self.contents@.subrange(start as int, end as int));
        assert(kept@ =~= self.contents@.subrange(0, start as int) + self.contents@.subrange(
            end as int,
            len as int,
        ));
        self.contents = kept;
        if start <= self.cursor && self.cursor < end {
            self.cursor = start;
        } else if end < self.cursor {
            self.cursor = self.cursor - end;
        }
        removed
    }
}

/// Defines how a token is produced from a lexer.
pub trait Token<T: Sized + PartialEq + Copy>: Sized {
    type Error: From<std::io::Error> + std::fmt::Debug;

    /// Whether one call of `next_token` may turn the lexer `before` into
    /// `after` and return `r`. An implementation that leaves this out
    /// promises nothing about its steps.
    open spec fn step(before: Lexer<T>, after: Lexer<T>, r: Result<Self, Self::Error>) -> bool {
        true
    }

    /// Produces the next token from `lexer`, moving its cursor or extracting
    /// from it as needed. A token produced while elements remain leaves fewer
    /// of them unconsumed.
    fn next_token(lexer: &mut Lexer<T>) -> (r: Result<Self, Self::Error>)
        ensures
            Self::step(*old(lexer), *final(lexer), r),
            r is Ok && old(lexer).unconsumed() > 0 ==> final(lexer).unconsumed() < old(
                lexer,
            ).unconsumed(),
    ;
}

/// Defines how a token is produced from a lexer within a lexical scope that
/// persists across the calls of one tokenization (for lexer hacks).
pub trait ScopedToken<T: Sized + PartialEq + Copy>: Sized {
    type Scope: Default;

    type Error: From<std::io::Error> + std::fmt::Debug;

    /// Whether one call of `next_token` may turn the lexer `before` and the
    /// scope `scope_before` into `after` and `scope_after` and return `r`.
    /// An implementation that leaves this out promises nothing about its
    /// steps.
    open spec fn scoped_step(
        before: Lexer<T>,
        scope_before: Self::Scope,
        after: Lexer<T>,
        scope_after: Self::Scope,
        r: Result<Self, Self::Error>,
    ) -> bool {
        true
    }

    /// Produces the next token from `lexer` within `scope`, which it may
    /// read and update. A token produced while elements remain leaves fewer
    /// of them unconsumed.
    fn next_token(lexer: &mut Lexer<T>, scope: &mut Self::Scope) -> (r: Result<Self, Self::Error>)
        ensures
            Self::scoped_step(*old(lexer), *old(scope), *final(lexer), *final(scope), r),
            r is Ok && old(lexer).unconsumed() > 0 ==> final(lexer).unconsumed() < old(
                lexer,
            ).unconsumed(),
    ;
}

/// Whether `scope` is a value that `Default::default` may return for the
/// scope type of `S`.
pub open spec fn is_default_scope<T: Sized + PartialEq + Copy, S: ScopedToken<T>>(
    scope: S::Scope,
) -> bool {
    call_ensures(<S::Scope as Default>::default, (), scope)
}

/// Every scoped token is a token: each call runs in a freshly defaulted
/// scope, which is dropped afterwards.
impl<T: Sized + PartialEq + Copy, Scoped: ScopedToken<T>> Token<T> for Scoped {
    type Error = <Scoped as ScopedToken<T>>::Error;

    open spec fn step(before: Lexer<T>, after: Lexer<T>, r: Result<Self, Self::Error>) -> bool {
        exists|scope_before: Scoped::Scope, scope_after: Scoped::Scope|
            #![trigger Scoped::scoped_step(before, scope_before, after, scope_after, r)]
            is_default_scope::<T, Scoped>(scope_before) && Scoped::scoped_step(
                before,
                scope_before,
                after,
                scope_after,
                r,
            )
    }

    fn next_token(lexer: &mut Lexer<T>) -> (r: Result<Self, Self::Error>) {
        let mut scope = <Scoped as ScopedToken<T>>::Scope::default();
        let ghost scope_before = scope;
        assert(is_default_scope::<T, Scoped>(scope_before));
        let r = <Scoped as ScopedToken<T>>::next_token(lexer, &mut scope);
        assert(Scoped::scoped_step(*old(lexer), scope_before, *lexer, scope, r));
        r
    }
}

/// Two consecutive calls through the bridge each start from a freshly
/// defaulted scope: whatever the first call did to its scope, the second
/// does not see it.
pub proof fn lemma_bridged_calls_start_from_default<T: Sized + PartialEq + Copy, S: ScopedToken<T>>(
    l0: Lexer<T>,
    l1: Lexer<T>,
    l2: Lexer<T>,
    r1: Result<S, <S as ScopedToken<T>>::Error>,
    r2: Result<S, <S as ScopedToken<T>>::Error>,
)
    requires
        <S as Token<T>>::step(l0, l1, r1),
        <S as Token<T>>::step(l1, l2, r2),
    ensures
        exists|s0: S::Scope, s1: S::Scope|
            #![trigger S::scoped_step(l0, s0, l1, s1, r1)]
            is_default_scope::<T, S>(s0) && S::scoped_step(l0, s0, l1, s1, r1),
        exists|s0: S::Scope, s1: S::Scope|
            #![trigger S::scoped_step(l1, s0, l2, s1, r2)]
            is_default_scope::<T, S>(s0) && S::scoped_step(l1, s0, l2, s1, r2),
{
}

/// Whether one call of `K::next_token` found elements left in `before`,
/// produced `token` and left `after`.
pub open spec fn is_token_step<T: Sized + PartialEq + Copy, K: Token<T>>(
    before: Lexer<T>,
    after: Lexer<T>,
    token: K,
) -> bool {
    before.unconsumed() > 0 && K::step(before, after, Ok(token))
}

/// Whether `lexers` and `tokens` record a run of `K::next_token` calls from
/// `start`: call `i` turned `lexers[i]` into `lexers[i + 1]` and produced
/// `tokens[i]`.
pub open spec fn is_run<T: Sized + PartialEq + Copy, K: Token<T>>(
    start: Lexer<T>,
    lexers: Seq<Lexer<T>>,
    tokens: Seq<K>,
) -> bool {
    &&& lexers.len() == tokens.len() + 1
    &&& lexers[0] == start
    &&& forall|i: int|
        0 <= i < tokens.len() ==> #[trigger] is_token_step(lexers[i], lexers[i + 1], tokens[i])
}

impl<T: Sized + PartialEq + Copy> Lexer<T> {
    /// Produces tokens of type `K` until the buffer is exhausted and returns
    /// them in order; the first failure ends the run with that error, and
    /// the tokens produced before it are dropped.
    pub fn tokenize_until_end<K: Token<T>>(self) -> (r: Result<Vec<K>, K::Error>)
        ensures
            self.unconsumed() == 0 ==> r is Ok && r->Ok_0@.len() == 0,
            r is Ok ==> exists|lexers: Seq<Lexer<T>>|
                #[trigger] is_run(self, lexers, r->Ok_0@) && lexers.last().unconsumed() == 0,
            r is Err ==> exists|lexers: Seq<Lexer<T>>, tokens: Seq<K>, after: Lexer<T>|
                #![trigger is_run(self, lexers, tokens), K::step(lexers.last(), after, Err(r->Err_0))]
                is_run(self, lexers, tokens) && lexers.last().unconsumed() > 0 && K::step(
                    lexers.last(),
                    after,
                    Err(r->Err_0),
                ),
    {
        let mut lexer = self;
        let mut tokens: Vec<K> = Vec::new();
        let ghost mut lexers: Seq<Lexer<T>> = seq![self];
        while !lexer.is_end()
            invariant
                self.unconsumed() == 0 ==> tokens@.len() == 0 && lexer.unconsumed() == 0,
                is_run(self, lexers, tokens@),
                lexers.last() == lexer,
            decreases lexer.unconsumed(),
        {
            let ghost before = lexer;
            let r = K::next_token(&mut lexer);
            match r {
                Ok(token) => {
                    let ghost old_lexers = lexers;
                    let ghost old_tokens = tokens@;
                    proof {
                        lexers = lexers.push(lexer);
                    }
                    tokens.push(token);
                    assert(is_run(self, lexers, tokens@)) by {
                        assert forall|i: int| 0 <= i < tokens@.len() implies #[trigger] is_token_step(
                            lexers[i],
                            lexers[i + 1],
                            tokens@[i],
                        ) by {
                            if i < old_tokens.len() {
                                assert(lexers[i] == old_lexers[i]);
                                assert(lexers[i + 1] == old_lexers[i + 1]);
                                assert(tokens@[i] == old_tokens[i]);
                            } else {
                                assert(lexers[i] == before);
                                assert(lexers[i + 1] == lexer);
                                assert(tokens@[i] == token);
                            }
                        }
                    }
                },
                Err(e) => {
                    assert(K::step(lexers.last(), lexer, Err(e)));
                    assert(exists|ls: Seq<Lexer<T>>, ts: Seq<K>, a: Lexer<T>|
                        #![trigger is_run(self, ls, ts), K::step(ls.last(), a, Err(e))]
                        is_run(self, ls, ts) && ls.last().unconsumed() > 0 && K::step(ls.last(), a, Err(e)));
                    let res: Result<Vec<K>, K::Error> = Err(e);
                    assert(res->Err_0 == e);
                    return res;
                },
            }
        }
        assert(is_run(self, lexers, tokens@) && lexers.last().unconsumed() == 0);
        let ghost produced = tokens@;
        let res: Result<Vec<K>, K::Error> = Ok(tokens);
        assert(res->Ok_0@ == produced);
        res
    }
}

impl<T: Sized + PartialEq + Copy> Analyser<T> for Lexer<T> {
    open spec fn analysed(&self) -> Seq<T> {
        self.spec_contents()
    }

    open spec fn position(&self) -> nat {
        self.spec_cursor()
    }

    open spec fn positioning_succeeds(&self, p: usize) -> bool {
        true
    }

    fn contents(&self) -> (r: &[T]) {
        self.contents.as_slice()
    }

    fn pos(&self) -> (r: usize) {
        self.cursor
    }

    fn set_pos(&mut self, position: usize) -> (r: Result<(), std::io::Error>) {
        self.cursor = position;
        Ok(())
    }

    fn drain(self) -> (r: Vec<T>) {
        self.contents
    }

    fn is_end(&self) -> (r: bool) {
        self.cursor >= self.contents.len()
    }
}

} // verus!
