use vstd::prelude::*;
use vstd::string::StrSliceExecFns;

verus! {

/// Which renderer draws the samples: one bar per value, or a chart of every
/// series on the character grid.
#[derive(Clone, Copy, Debug, PartialEq, Eq, Structural)]
pub enum PlotterType {
    Text,
    Terminal,
}

fn same_text(s: &str, t: &str) -> (r: bool)
    ensures
        r == (s@ == t@),
{
    let n = s.unicode_len();
    if n != t.unicode_len() {
        return false;
    }
    let mut i: usize = 0;
    while i < n
        invariant
            i <= n,
            n == s@.len(),
            n == t@.len(),
            forall|j: int| 0 <= j < i ==> s@[j] == t@[j],
        decreases n - i,
    {
        if s.get_char(i) != t.get_char(i) {
            return false;
        }
        i = i + 1;
    }
    assert(s@ =~= t@);
    true
}

impl PlotterType {
    /// The renderer that `name` names: `text` the bars, `tui` the chart.
    pub fn parse(name: &str) -> (r: Option<PlotterType>)
        ensures
            r == if name@ == "text"@ {
                Some(PlotterType::Text)
            } else if name@ == "tui"@ {
                Some(PlotterType::Terminal)
            } else {
                None::<PlotterType>
            },
    {
        if same_text(name, "text") {
            Some(PlotterType::Text)
        } else if same_text(name, "tui") {
            Some(PlotterType::Terminal)
        } else {
            None
        }
    }
}

impl Default for PlotterType {
    fn default() -> (r: PlotterType)
        ensures
            r == PlotterType::Text,
    {
        PlotterType::Text
    }
}

impl std::str::FromStr for PlotterType {
    type Err = &'static str;

    fn from_str(name: &str) -> Result<PlotterType, &'static str> {
        match PlotterType::parse(name) {
            Some(t) => Ok(t),
            None => Err("Invalid plotter type"),
        }
    }
}

} // verus!
