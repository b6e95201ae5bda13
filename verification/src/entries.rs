//! Calendar assembly: lays a normalized schedule out as displayable
//! all-day entries, carrying the canonical link and source-page link
//! templates that embed the property identifier.

use vstd::prelude::*;
use vstd::string::StringExecFns;

use crate::date::Date;
use crate::pickup::{spec_display_string, PickupType};
use crate::pickup_calendar::PickupCalendar;

verus! {

/// One displayable all-day calendar entry.
pub struct CalendarEntry {
    /// The pickup date.
    pub date: Date,
    /// The entry title: the kind's display rendering.
    pub title: String,
    /// The shared two-line body naming the canonical and source links.
    pub description: String,
    /// The canonical link for the whole schedule.
    pub url: String,
}

/// The canonical link for a schedule with this identifier.
pub open spec fn spec_url(id: Seq<char>) -> Seq<char> {
    "https://stabbylambda.com/trashcal/"@ + id
}

/// The shared entry body: the canonical link, then the source page link,
/// each embedding the identifier.
pub open spec fn spec_description(id: Seq<char>) -> Seq<char> {
    "Trashcal: https://stabbylambda.com/trashcal/"@ + id
        + "\n\nSD Trash Page: https://getitdone.sandiego.gov/CollectionDetail?id="@ + id
}

/// Builds the canonical link for the identifier.
fn build_url(id: &str) -> (r: String)
    ensures
        r@ == spec_url(id@),
{
    let mut s = String::from_str("https://stabbylambda.com/trashcal/");
    s.append(id);
    s
}

/// Builds the shared entry body for the identifier.
fn build_description(id: &str) -> (r: String)
    ensures
        r@ == spec_description(id@),
{
    let mut s = String::from_str("Trashcal: https://stabbylambda.com/trashcal/");
    s.append(id);
    s.append("\n\nSD Trash Page: https://getitdone.sandiego.gov/CollectionDetail?id=");
    s.append(id);
    proof {
        assert(s@ =~= spec_description(id@));
    }
    s
}

impl PickupCalendar {
    /// Lays the schedule out as one all-day entry per pickup, titled with
    /// the kind's display rendering (whimsical or plain as asked), all
    /// sharing the same body and link. Entries keep the schedule's order.
    pub fn calendar_entries(&self, whimsy: bool) -> (r: Vec<CalendarEntry>)
        ensures
            r@.len() == self.pickups@.len(),
            forall|i: int|
                0 <= i < r@.len() ==> {
                    let e = #[trigger] r@[i];
                    &&& e.date == self.pickups@[i].date
                    &&& e.title@ == spec_display_string(self.pickups@[i].name, whimsy)
                    &&& e.description@ == spec_description(self.id@)
                    &&& e.url@ == spec_url(self.id@)
                },
    {
        let url = build_url(self.id.as_str());
        let description = build_description(self.id.as_str());
        let mut out: Vec<CalendarEntry> = Vec::new();
        let mut i: usize = 0;
        while i < self.pickups.len()
            invariant
                0 <= i <= self.pickups@.len(),
                url@ == spec_url(self.id@),
                description@ == spec_description(self.id@),
                out@.len() == i,
                forall|k: int|
                    0 <= k < i ==> {
                        let e = #[trigger] out@[k];
                        &&& e.date == self.pickups@[k].date
                        &&& e.title@ == spec_display_string(self.pickups@[k].name, whimsy)
                        &&& e.description@ == spec_description(self.id@)
                        &&& e.url@ == spec_url(self.id@)
                    },
            decreases self.pickups@.len() - i,
        {
            let p = self.pickups[i];
            out.push(
                CalendarEntry {
                    date: p.date,
                    title: p.name.display_string(whimsy),
                    description: description.clone(),
                    url: url.clone(),
                },
            );
            i = i + 1;
        }
        out
    }
}

} // verus!
