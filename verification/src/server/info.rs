//! What the site has data on.
use crate::collector::Date;
use crate::load::InputData;
use vstd::prelude::*;
use vstd::string::*;

verus! {

/// The statistics, and the date of the latest data.
#[derive(Debug, PartialEq, Eq)]
pub struct Response {
    pub stats: Vec<String>,
    pub as_of: Option<Date>,
}

/// Says which statistics there are, and how recent they are.
pub fn handle_info(data: &InputData) -> (res: Response)
    ensures
        res.stats@ == data.stats_list@,
        res.as_of == data.last_date,
{
    Response { stats: data.stats_list.clone(), as_of: data.last_date }
}

/// Every statistic is named, in its order, beside the date of the latest data.
pub proof fn lemma_info(data: InputData, res: Response)
    requires
        call_ensures(handle_info, (&data,), res),
    ensures
        res.stats@.len() == data.stats_list@.len(),
        forall|i: int|
            0 <= i < data.stats_list@.len() ==> (#[trigger] res.stats@[i])@
                == data.stats_list@[i]@,
        res.as_of == data.last_date,
{
}

} // verus!
