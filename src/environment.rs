//! Scope frames kept in an arena: a frame is named by its index, and its
//! enclosing frame by an earlier index. Closures hold the index of the frame
//! they were made in, so a frame lives as long as the environment.

use vstd::prelude::*;
use crate::object::Object;
use crate::value::Value;

verus! {

/// The model of one frame: bindings in order of writing, and the enclosing frame.
pub struct FrameV {
    pub bindings: Seq<(Seq<char>, Value)>,
    pub outer: Option<nat>,
}

/// The model of the whole environment: the frames, and the lines printed so far.
pub struct State {
    pub frames: Seq<FrameV>,
    pub output: Seq<Seq<char>>,
}

/// The value bound last to `name` among `bs`.
pub open spec fn find_binding(bs: Seq<(Seq<char>, Value)>, name: Seq<char>) -> Option<Value>
    decreases bs.len(),
{
    if bs.len() == 0 {
        None
    } else if bs.last().0 == name {
        Some(bs.last().1)
    } else {
        find_binding(bs.drop_last(), name)
    }
}

/// Looks `name` up in frame `f`, then in its enclosing frames, outwards.
/// A link that does not point to an earlier frame ends the search.
pub open spec fn lookup(st: State, f: nat, name: Seq<char>) -> Option<Value>
    decreases f,
{
    if f >= st.frames.len() {
        None
    } else {
        match find_binding(st.frames[f as int].bindings, name) {
            Some(v) => Some(v),
            None => match st.frames[f as int].outer {
                Some(o) => if o < f {
                    lookup(st, o, name)
                } else {
                    None
                },
                None => None,
            },
        }
    }
}

/// Binds `name` to `v` in frame `f` only; enclosing frames are untouched.
pub open spec fn bind(st: State, f: nat, name: Seq<char>, v: Value) -> State {
    if f < st.frames.len() {
        State {
            frames: st.frames.update(
                f as int,
                FrameV {
                    bindings: st.frames[f as int].bindings.push((name, v)),
                    outer: st.frames[f as int].outer,
                },
            ),
            output: st.output,
        }
    } else {
        st
    }
}

/// Adds an empty frame enclosed by frame `outer`; it gets the index `st.frames.len()`.
pub open spec fn enclose(st: State, outer: nat) -> State {
    State {
        frames: st.frames.push(FrameV { bindings: Seq::empty(), outer: Some(outer) }),
        output: st.output,
    }
}

/// One frame of bindings.
pub struct Frame {
    pub bindings: Vec<(String, Object)>,
    pub outer: Option<usize>,
}

impl Frame {
    pub open spec fn view(&self) -> FrameV {
        FrameV {
            bindings: self.bindings@.map_values(|p: (String, Object)| (p.0@, p.1@)),
            outer: match self.outer {
                Some(o) => Some(o as nat),
                None => None,
            },
        }
    }
}

/// The binding store: an arena of frames, of which frame 0 is the root,
/// and the lines that `puts` has printed and nobody has taken yet.
pub struct Environment {
    pub frames: Vec<Frame>,
    pub output: Vec<String>,
}

/// The index of the root frame.
pub const ROOT: usize = 0;

impl Environment {
    pub open spec fn view(&self) -> State {
        State {
            frames: self.frames@.map_values(|f: Frame| f.view()),
            output: self.output@.map_values(|s: String| s@),
        }
    }

    /// An environment with one empty root frame and nothing printed.
    pub fn new() -> (r: Environment)
        ensures
            r@ == (State {
                frames: seq![FrameV { bindings: Seq::empty(), outer: None }],
                output: Seq::empty(),
            }),
    {
        let mut frames: Vec<Frame> = Vec::new();
        frames.push(Frame { bindings: Vec::new(), outer: None });
        let r = Environment { frames, output: Vec::new() };
        assert(r@.frames[0].bindings =~= Seq::empty());
        assert(r@.frames =~= seq![FrameV { bindings: Seq::empty(), outer: None }]);
        assert(r@.output =~= Seq::empty());
        r
    }

    /// The number of frames.
    pub fn len(&self) -> (r: usize)
        ensures
            r == self@.frames.len(),
    {
        self.frames.len()
    }

    /// The value of `name` seen from frame `f`.
    pub fn get(&self, f: usize, name: &String) -> (r: Option<Object>)
        ensures
            match r {
                Some(o) => lookup(self@, f as nat, name@) == Some(o@),
                None => lookup(self@, f as nat, name@).is_none(),
            },
    {
        let mut cur = f;
        loop
            invariant
                lookup(self@, cur as nat, name@) == lookup(self@, f as nat, name@),
            decreases cur,
        {
            if cur >= self.frames.len() {
                return None;
            }
            let frame = &self.frames[cur];
            let ghost bs = self@.frames[cur as int].bindings;
            let mut j = frame.bindings.len();
            assert(bs.subrange(0, j as int) =~= bs);
            while j > 0
                invariant
                    cur < self.frames.len(),
                    lookup(self@, cur as nat, name@) == lookup(self@, f as nat, name@),
                    frame == self.frames@[cur as int],
                    bs == self@.frames[cur as int].bindings,
                    j <= frame.bindings.len(),
                    find_binding(bs, name@) == find_binding(bs.subrange(0, j as int), name@),
                decreases j,
            {
                let ghost sub = bs.subrange(0, j as int);
                assert(sub.drop_last() =~= bs.subrange(0, j - 1));
                assert(bs[j - 1] == (frame.bindings@[j - 1].0@, frame.bindings@[j - 1].1@));
                if frame.bindings[j - 1].0.eq(name) {
                    assert(sub.last() == bs[j - 1]);
                    assert(find_binding(sub, name@) == Some(bs[j - 1].1));
                    assert(lookup(self@, cur as nat, name@) == Some(bs[j - 1].1));
                    return Some(frame.bindings[j - 1].1.copy());
                }
                j = j - 1;
            }
            assert(bs.subrange(0, 0) =~= Seq::<(Seq<char>, Value)>::empty());
            match frame.outer {
                Some(o) => {
                    if o < cur {
                        cur = o;
                    } else {
                        return None;
                    }
                },
                None => {
                    return None;
                },
            }
        }
    }

    /// Binds `name` to `value` in frame `f`.
    pub fn set(&mut self, f: usize, name: String, value: Object)
        ensures
            final(self)@ == bind(old(self)@, f as nat, name@, value@),
    {
        if f < self.frames.len() {
            let ghost nv = (name@, value@);
            let mut frame = Frame { bindings: Vec::new(), outer: None };
            std::mem::swap(&mut frame, &mut self.frames[f]);
            frame.bindings.push((name, value));
            self.frames.set(f, frame);
            assert(self@.frames[f as int].bindings =~= old(self)@.frames[f as int].bindings.push(nv));
            assert(self@.frames =~= bind(old(self)@, f as nat, nv.0, nv.1).frames);
            assert(self@ == bind(old(self)@, f as nat, nv.0, nv.1));
        }
    }

    /// Adds an empty frame enclosed by `outer` and returns its index.
    pub fn new_enclosed(&mut self, outer: usize) -> (r: usize)
        ensures
            final(self)@ == enclose(old(self)@, outer as nat),
            r == old(self)@.frames.len(),
    {
        let r = self.frames.len();
        self.frames.push(Frame { bindings: Vec::new(), outer: Some(outer) });
        assert(self@.frames[r as int].bindings =~= Seq::empty());
        assert(self@.frames =~= enclose(old(self)@, outer as nat).frames);
        r
    }

    /// Records a printed line.
    pub fn emit(&mut self, line: String)
        ensures
            final(self)@ == (State { frames: old(self)@.frames, output: old(self)@.output.push(line@) }),
    {
        self.output.push(line);
        assert(self@.output =~= old(self)@.output.push(line@));
        assert(self@.frames =~= old(self)@.frames);
    }

    /// Hands out the printed lines, oldest first, and forgets them.
    pub fn take_output(&mut self) -> (r: Vec<String>)
        ensures
            r@.map_values(|s: String| s@) == old(self)@.output,
            final(self)@ == (State { frames: old(self)@.frames, output: Seq::empty() }),
    {
        let mut r: Vec<String> = Vec::new();
        std::mem::swap(&mut r, &mut self.output);
        assert(self@.output =~= Seq::<Seq<char>>::empty());
        assert(self@.frames =~= old(self)@.frames);
        r
    }
}

} // verus!
