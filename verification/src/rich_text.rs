use vstd::prelude::*;

verus! {

/// A plain text node.
pub struct Text {
    pub value: String,
}

impl Text {
    pub fn get_value(&self) -> (r: &str)
        ensures
            r@ == self.value@,
    {
        self.value.as_str()
    }

    pub fn set_value(&mut self, value: String)
        ensures
            final(self).value == value,
    {
        self.value = value;
    }

    pub fn new_with(value: String) -> (r: Text)
        ensures
            r.value == value,
    {
        Text { value }
    }

    pub fn clone_text(&self) -> (r: Text)
        ensures
            r.value@ == self.value@,
    {
        Text { value: self.value.clone() }
    }
}

/// Rich-text content: an ordered sequence of runs. Per-run formatting is
/// collaborator data outside this core; each run is modeled by its text.
pub struct RichText {
    pub runs: Vec<Text>,
}

/// The concatenated text of a sequence of runs.
pub open spec fn concat_runs(rs: Seq<Seq<char>>) -> Seq<char>
    decreases rs.len(),
{
    if rs.len() == 0 {
        Seq::empty()
    } else {
        rs[0] + concat_runs(rs.drop_first())
    }
}

/// The views of the runs of a rich text, in order.
pub open spec fn runs_view(rt: RichText) -> Seq<Seq<char>> {
    rt.runs@.map_values(|t: Text| t.value@)
}

impl RichText {
    pub fn new() -> (r: RichText)
        ensures
            runs_view(r) == Seq::<Seq<char>>::empty(),
    {
        let r = RichText { runs: Vec::new() };
        proof {
            assert(runs_view(r) =~= Seq::<Seq<char>>::empty());
        }
        r
    }

    pub fn add_run(&mut self, t: Text)
        ensures
            runs_view(*final(self)) == runs_view(*old(self)).push(t.value@),
    {
        self.runs.push(t);
        proof {
            assert(runs_view(*self) =~= runs_view(*old(self)).push(self.runs@.last().value@));
        }
    }

    pub fn clone_rich_text(&self) -> (r: RichText)
        ensures
            runs_view(r) == runs_view(*self),
    {
        let mut runs: Vec<Text> = Vec::new();
        let mut i: usize = 0;
        while i < self.runs.len()
            invariant
                i <= self.runs@.len(),
                runs@.len() == i,
                forall|j: int| 0 <= j < i ==> runs@[j].value@ == self.runs@[j].value@,
            decreases self.runs@.len() - i,
        {
            runs.push(self.runs[i].clone_text());
            i += 1;
        }
        let r = RichText { runs };
        proof {
            assert(runs_view(r) =~= runs_view(*self));
        }
        r
    }

    /// The concatenated text of all runs.
    pub fn get_text(&self) -> (r: String)
        ensures
            r@ == concat_runs(runs_view(*self)),
    {
        let mut out: Vec<char> = Vec::new();
        let mut i: usize = 0;
        while i < self.runs.len()
            invariant
                i <= self.runs@.len(),
                out@ == concat_runs(runs_view(*self).take(i as int)),
            decreases self.runs@.len() - i,
        {
            let cs = crate::util::chars_vec(self.runs[i].value.as_str());
            let mut k: usize = 0;
            while k < cs.len()
                invariant
                    k <= cs@.len(),
                    cs@ == self.runs@[i as int].value@,
                    i < self.runs@.len(),
                    out@ == concat_runs(runs_view(*self).take(i as int)) + cs@.take(k as int),
                decreases cs@.len() - k,
            {
                out.push(cs[k]);
                k += 1;
            }
            proof {
                assert(cs@.take(cs@.len() as int) =~= cs@);
                lemma_concat_runs_take(runs_view(*self), i as int);
                assert(out@ == concat_runs(runs_view(*self).take(i as int + 1)));
            }
            i += 1;
        }
        proof {
            assert(runs_view(*self).take(runs_view(*self).len() as int) =~= runs_view(*self));
        }
        crate::util::string_from_chars(&out)
    }
}

/// Taking one more run appends exactly that run's text.
pub proof fn lemma_concat_runs_take(rs: Seq<Seq<char>>, i: int)
    requires
        0 <= i < rs.len(),
    ensures
        concat_runs(rs.take(i + 1)) == concat_runs(rs.take(i)) + rs[i],
    decreases i,
{
    if i == 0 {
        assert(rs.take(1).drop_first() =~= Seq::<Seq<char>>::empty());
        assert(rs.take(0) =~= Seq::<Seq<char>>::empty());
        assert(rs.take(1)[0] == rs[0]);
        assert(concat_runs(rs.take(1)) == rs.take(1)[0] + concat_runs(rs.take(1).drop_first()));
        assert(concat_runs(rs.take(1)) =~= rs[0]);
        assert(concat_runs(rs.take(0)) + rs[0] =~= rs[0]);
    } else {
        lemma_concat_runs_take(rs.drop_first(), i - 1);
        assert(rs.take(i + 1).drop_first() =~= rs.drop_first().take(i));
        assert(rs.take(i).drop_first() =~= rs.drop_first().take(i - 1));
        assert(rs.take(i + 1)[0] == rs[0]);
        assert(rs.take(i)[0] == rs[0]);
        assert(concat_runs(rs.take(i + 1)) == rs[0] + concat_runs(rs.drop_first().take(i)));
        assert(concat_runs(rs.take(i)) == rs[0] + concat_runs(rs.drop_first().take(i - 1)));
        assert(rs.drop_first()[i - 1] == rs[i]);
        assert(rs[0] + (concat_runs(rs.drop_first().take(i - 1)) + rs[i]) =~= (rs[0]
            + concat_runs(rs.drop_first().take(i - 1))) + rs[i]);
    }
}

} // verus!
