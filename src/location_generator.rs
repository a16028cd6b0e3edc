use vstd::prelude::*;
use crate::location::Location;
use crate::sampling::{offset_from_draw, random_i64};

verus! {

/// A source of locations to guess, drawn from named datasets.
pub trait LocationGeneratorTrait {
    /// A location of the named dataset, or `None` when there is none to give.
    fn sample_from_dataset(&self, dataset: &str) -> Option<Location>;
}

/// The dataset used when the requested one is unknown.
pub open spec fn default_dataset() -> Seq<char> {
    "world"@
}

/// Index of the last dataset named `name`, or -1.
pub open spec fn dataset_index(datasets: Seq<(String, Vec<Location>)>, name: Seq<char>) -> int
    decreases datasets.len(),
{
    if datasets.len() == 0 {
        -1
    } else if datasets.last().0@ == name {
        datasets.len() - 1
    } else {
        dataset_index(datasets.drop_last(), name)
    }
}

/// The datasets by name; of two datasets with the same name, the later one
/// is kept.
pub open spec fn dataset_map(datasets: Seq<(String, Vec<Location>)>) -> Map<Seq<char>, Seq<Location>>
    decreases datasets.len(),
{
    if datasets.len() == 0 {
        Map::empty()
    } else {
        dataset_map(datasets.drop_last()).insert(datasets.last().0@, datasets.last().1@)
    }
}

/// Points of the dataset that a request for `name` reads: that dataset when
/// known, else the default one; `None` when neither is known.
pub open spec fn chosen_points(datasets: Seq<(String, Vec<Location>)>, name: Seq<char>) -> Option<
    Seq<Location>,
> {
    let m = dataset_map(datasets);
    if m.contains_key(name) {
        Some(m[name])
    } else if m.contains_key(default_dataset()) {
        Some(m[default_dataset()])
    } else {
        None
    }
}

proof fn lemma_dataset_index_map(datasets: Seq<(String, Vec<Location>)>, name: Seq<char>)
    ensures
        dataset_index(datasets, name) >= 0 <==> dataset_map(datasets).contains_key(name),
        dataset_index(datasets, name) >= 0 ==> dataset_map(datasets)[name]
            == datasets[dataset_index(datasets, name)].1@,
    decreases datasets.len(),
{
    if datasets.len() > 0 {
        lemma_dataset_index_map(datasets.drop_last(), name);
        lemma_dataset_index_range(datasets.drop_last(), name);
    }
}

proof fn lemma_dataset_index_range(datasets: Seq<(String, Vec<Location>)>, name: Seq<char>)
    ensures
        -1 <= dataset_index(datasets, name) < datasets.len(),
        dataset_index(datasets, name) >= 0 ==> datasets[dataset_index(datasets, name)].0@ == name,
    decreases datasets.len(),
{
    if datasets.len() > 0 {
        lemma_dataset_index_range(datasets.drop_last(), name);
    }
}

fn find_dataset(datasets: &Vec<(String, Vec<Location>)>, name: &String) -> (r: Option<usize>)
    ensures
        match r {
            Some(i) => i as int == dataset_index(datasets@, name@),
            None => dataset_index(datasets@, name@) == -1,
        },
{
    let mut i: usize = datasets.len();
    proof {
        assert(datasets@.take(i as int) =~= datasets@);
    }
    while i > 0
        invariant
            i <= datasets.len(),
            dataset_index(datasets@, name@) == dataset_index(datasets@.take(i as int), name@),
        decreases i,
    {
        proof {
            assert(datasets@.take(i as int).drop_last() =~= datasets@.take(i - 1));
        }
        if datasets[i - 1].0 == *name {
            return Some(i - 1);
        }
        i = i - 1;
    }
    None
}

/// Datasets of points loaded from point files, by name.
pub struct DatafileLocationGenerator {
    datasets: Vec<(String, Vec<Location>)>,
}

impl DatafileLocationGenerator {
    pub closed spec fn datasets(&self) -> Seq<(String, Vec<Location>)> {
        self.datasets@
    }

    /// A generator over the given datasets; a later dataset hides an earlier
    /// one of the same name.
    pub fn new(datasets: Vec<(String, Vec<Location>)>) -> (r: DatafileLocationGenerator)
        ensures
            r.datasets() == datasets@,
    {
        DatafileLocationGenerator { datasets }
    }

    /// The point at `idx` modulo the size of the dataset that a request for
    /// `dataset` reads; `None` when that dataset is unknown or empty.
    pub fn pick(&self, dataset: &str, idx: u64) -> (r: Option<Location>)
        ensures
            match chosen_points(self.datasets(), dataset@) {
                Some(points) => if points.len() > 0 {
                    r == Some(points[(idx as int) % (points.len() as int)])
                } else {
                    r is None
                },
                None => r is None,
            },
    {
        let name = dataset.to_owned();
        let fallback = "world".to_owned();
        proof {
            lemma_dataset_index_range(self.datasets@, dataset@);
            lemma_dataset_index_range(self.datasets@, default_dataset());
            lemma_dataset_index_map(self.datasets@, dataset@);
            lemma_dataset_index_map(self.datasets@, default_dataset());
        }
        let found = match find_dataset(&self.datasets, &name) {
            Some(i) => Some(i),
            None => find_dataset(&self.datasets, &fallback),
        };
        match found {
            Some(i) => {
                let points = &self.datasets[i].1;
                if points.len() == 0 {
                    None
                } else {
                    let k = (idx % (points.len() as u64)) as usize;
                    Some(points[k])
                }
            },
            None => None,
        }
    }
}

impl LocationGeneratorTrait for DatafileLocationGenerator {
    /// A point drawn at random from the requested dataset, or from the
    /// default one when the requested one is unknown.
    fn sample_from_dataset(&self, dataset: &str) -> (r: Option<Location>)
        ensures
            r is None <==> match chosen_points(self.datasets(), dataset@) {
                Some(points) => points.len() == 0,
                None => true,
            },
            r is Some ==> chosen_points(self.datasets(), dataset@)->Some_0.contains(r->Some_0),
    {
        let idx = offset_from_draw(random_i64(), u64::MAX);
        let r = self.pick(dataset, idx);
        proof {
            if let Some(points) = chosen_points(self.datasets(), dataset@) {
                if points.len() > 0 {
                    let k = (idx as int) % (points.len() as int);
                    assert(points[k] == r->Some_0);
                }
            }
        }
        r
    }
}

/// Always gives the same location, for tests.
pub struct MockLocationGenerator {}

/// The mock generator's location: 30 degrees north, 98 degrees east.
pub open spec fn mock_location() -> Location {
    Location { latitude: 300000000, longitude: 980000000 }
}

impl MockLocationGenerator {
    pub fn new() -> (r: MockLocationGenerator) {
        MockLocationGenerator {  }
    }

    pub fn location(&self) -> (r: Location)
        ensures
            r == mock_location(),
    {
        Location::new(300000000, 980000000)
    }
}

impl LocationGeneratorTrait for MockLocationGenerator {
    fn sample_from_dataset(&self, _dataset: &str) -> (r: Option<Location>)
        ensures
            r == Some(mock_location()),
    {
        Some(self.location())
    }
}

/// The generators a game can draw its locations from.
pub enum LocationGenerator {
    Datafile(DatafileLocationGenerator),
    Mock(MockLocationGenerator),
}

impl LocationGenerator {
    pub fn mock() -> (r: LocationGenerator)
        ensures
            r is Mock,
    {
        LocationGenerator::Mock(MockLocationGenerator::new())
    }

    pub fn from_datafile(datasets: Vec<(String, Vec<Location>)>) -> (r: LocationGenerator)
        ensures
            r is Datafile,
            r->Datafile_0.datasets() == datasets@,
    {
        LocationGenerator::Datafile(DatafileLocationGenerator::new(datasets))
    }

    /// A location of the named dataset; the mock always gives
    /// [`mock_location`].
    pub fn sample(&self, dataset: &str) -> (r: Option<Location>)
        ensures
            self is Mock ==> r == Some(mock_location()),
            self is Datafile ==> (r is None <==> match chosen_points(
                self->Datafile_0.datasets(),
                dataset@,
            ) {
                Some(points) => points.len() == 0,
                None => true,
            }),
            r is Some && self is Datafile ==> chosen_points(
                self->Datafile_0.datasets(),
                dataset@,
            )->Some_0.contains(r->Some_0),
    {
        match self {
            LocationGenerator::Datafile(x) => x.sample_from_dataset(dataset),
            LocationGenerator::Mock(x) => Some(x.location()),
        }
    }
}

impl LocationGeneratorTrait for LocationGenerator {
    fn sample_from_dataset(&self, dataset: &str) -> (r: Option<Location>)
        ensures
            self is Mock ==> r == Some(mock_location()),
            self is Datafile ==> (r is None <==> match chosen_points(
                self->Datafile_0.datasets(),
                dataset@,
            ) {
                Some(points) => points.len() == 0,
                None => true,
            }),
            r is Some && self is Datafile ==> chosen_points(
                self->Datafile_0.datasets(),
                dataset@,
            )->Some_0.contains(r->Some_0),
    {
        self.sample(dataset)
    }
}

} // verus!
