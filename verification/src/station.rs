//! A radio station: a display name and a stream URL.

use vstd::prelude::*;

verus! {

/// What a station is, as text.
pub struct StationView {
    pub name: Seq<char>,
    pub url: Seq<char>,
}

#[derive(Debug, Clone, PartialEq, Eq)]
pub struct Station {
    pub name: String,
    pub url: String,
}

impl View for Station {
    type V = StationView;

    open spec fn view(&self) -> StationView {
        StationView { name: self.name@, url: self.url@ }
    }
}

/// The stations of a list, as text.
pub open spec fn stations_view(v: Seq<Station>) -> Seq<StationView> {
    v.map_values(|s: Station| s@)
}

impl Station {
    pub fn new(name: String, url: String) -> (s: Station)
        ensures
            s.name == name,
            s.url == url,
    {
        Station { name, url }
    }

    /// A copy of the station with the same name and URL.
    pub fn duplicate(&self) -> (s: Station)
        ensures
            s@ == self@,
    {
        Station { name: self.name.clone(), url: self.url.clone() }
    }
}

/// A copy of every station of `v`, in order.
pub fn duplicate_stations(v: &Vec<Station>) -> (out: Vec<Station>)
    ensures
        stations_view(out@) == stations_view(v@),
{
    let mut out: Vec<Station> = Vec::new();
    let mut i: usize = 0;
    while i < v.len()
        invariant
            i <= v@.len(),
            out@.len() == i,
            forall|j: int| 0 <= j < i ==> #[trigger] out@[j]@ == v@[j]@,
        decreases v@.len() - i,
    {
        out.push(v[i].duplicate());
        i = i + 1;
    }
    assert(stations_view(out@) =~= stations_view(v@));
    out
}

} // verus!
