//! The immutable description of one plot: dataset, axis ranges, captions,
//! and whether each point carries its coordinates as a label.

use crate::rational::Rat;
use crate::regression::pairs_wf;
use vstd::prelude::*;
use vstd::string::StringExecFns;

verus! {

/// Everything one rendered chart needs besides the fitted series and the
/// legend text.  Built once, then only read.
pub struct PlotConfig {
    /// The scatter points.
    pub data: Vec<(Rat, Rat)>,
    /// The x axis, lowest to highest.
    pub x_range: (Rat, Rat),
    /// The y axis, lowest to highest.
    pub y_range: (Rat, Rat),
    /// The title above the chart.
    pub caption: String,
    /// The x axis label.
    pub x_desc: String,
    /// The y axis label.
    pub y_desc: String,
    /// Whether each point is drawn with its own coordinate text.
    pub with_coord: bool,
}

impl PlotConfig {
    /// Every number of the configuration is well-formed.
    pub open spec fn wf(self) -> bool {
        &&& pairs_wf(self.data@)
        &&& self.x_range.0.wf()
        &&& self.x_range.1.wf()
        &&& self.y_range.0.wf()
        &&& self.y_range.1.wf()
    }

    /// Bundles the parts of a configuration, changing nothing.
    pub fn new(
        data: Vec<(Rat, Rat)>,
        x_range: (Rat, Rat),
        y_range: (Rat, Rat),
        caption: String,
        x_desc: String,
        y_desc: String,
        with_coord: bool,
    ) -> (c: PlotConfig)
        ensures
            c.data@ == data@,
            c.x_range == x_range,
            c.y_range == y_range,
            c.caption@ == caption@,
            c.x_desc@ == x_desc@,
            c.y_desc@ == y_desc@,
            c.with_coord == with_coord,
    {
        PlotConfig { data, x_range, y_range, caption, x_desc, y_desc, with_coord }
    }

    /// The scatter points of the configuration.
    pub fn data(&self) -> (r: &Vec<(Rat, Rat)>)
        ensures
            r@ == self.data@,
    {
        &self.data
    }
}

/// The small demonstration dataset of four integer points on a unit plot,
/// each point labeled with its coordinates.
pub fn config_simple() -> (c: PlotConfig)
    ensures
        c.wf(),
        c.data@.len() == 4,
        c.data@[0] == ((Rat { num: 1, den: 1 }), (Rat { num: 3, den: 1 })),
        c.data@[1] == ((Rat { num: 3, den: 1 }), (Rat { num: 6, den: 1 })),
        c.data@[2] == ((Rat { num: 6, den: 1 }), (Rat { num: 5, den: 1 })),
        c.data@[3] == ((Rat { num: 8, den: 1 }), (Rat { num: 7, den: 1 })),
        c.x_range == ((Rat { num: 0, den: 1 }), (Rat { num: 10, den: 1 })),
        c.y_range == ((Rat { num: 0, den: 1 }), (Rat { num: 10, den: 1 })),
        c.caption@ == ""@,
        c.x_desc@ == "x"@,
        c.y_desc@ == "y"@,
        c.with_coord == true,
{
    let data: Vec<(Rat, Rat)> = vec![
        (Rat::from_int(1), Rat::from_int(3)),
        (Rat::from_int(3), Rat::from_int(6)),
        (Rat::from_int(6), Rat::from_int(5)),
        (Rat::from_int(8), Rat::from_int(7)),
    ];
    PlotConfig::new(
        data,
        (Rat::from_int(0), Rat::from_int(10)),
        (Rat::from_int(0), Rat::from_int(10)),
        String::from_str(""),
        String::from_str("x"),
        String::from_str("y"),
        true,
    )
}

/// The monthly temperature and spending chart: the caller supplies the
/// dataset, the axes and captions are fixed for this chart.
pub fn config_icecream(data: Vec<(Rat, Rat)>) -> (c: PlotConfig)
    requires
        pairs_wf(data@),
    ensures
        c.wf(),
        c.data@ == data@,
        c.x_range == ((Rat { num: 0, den: 1 }), (Rat { num: 35, den: 1 })),
        c.y_range == ((Rat { num: -250i64, den: 1 }), (Rat { num: 2000, den: 1 })),
        c.caption@ == "Highest temperatures and ice cream/sorbet spending"@,
        c.x_desc@ == "Monthly avg of max temperature (Celsius)"@,
        c.y_desc@ == "Spending (Yen)"@,
        c.with_coord == false,
{
    PlotConfig::new(
        data,
        (Rat::from_int(0), Rat::from_int(35)),
        (Rat::from_int(-250), Rat::from_int(2000)),
        String::from_str("Highest temperatures and ice cream/sorbet spending"),
        String::from_str("Monthly avg of max temperature (Celsius)"),
        String::from_str("Spending (Yen)"),
        false,
    )
}

} // verus!
