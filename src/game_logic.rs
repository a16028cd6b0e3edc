use vstd::prelude::*;
use crate::location::Location;
use crate::location_generator::{chosen_points, LocationGenerator, mock_location};

verus! {

pub type PlayerId = usize;

pub type Points = usize;

#[derive(Clone, Copy, Debug, PartialEq, Eq, Structural)]
pub enum Error {
    CannotAddPlayer,
    GameOver,
}

#[derive(Clone, Copy, Debug, PartialEq, Eq, Structural)]
pub enum PlayerState {
    /// Player is in the game, waiting for other players to join
    Joined,
    /// Player has a street view, but has not yet guessed where they are
    Guessing,
    /// Player has guessed where they are, and is waiting for other players to guess & game to move on
    GuessResults,
    /// The game is complete, and player is viewing the final results
    FinalResults,
}

pub struct Player {
    pub name: String,
    pub points: usize,
    pub state: PlayerState,
    pub guesses: Vec<Location>,
}

/// The outcome of one guess.
pub struct GuessResult {
    pub guess: Location,
    pub actual: Location,
    pub points_gained: Points,
    pub new_points: Points,
}

/// Index of the player with id `id`, or -1.
pub open spec fn player_index(players: Seq<(PlayerId, Player)>, id: PlayerId) -> int
    decreases players.len(),
{
    if players.len() == 0 {
        -1
    } else if players.last().0 == id {
        players.len() - 1
    } else {
        player_index(players.drop_last(), id)
    }
}

/// The player index lies in range, names a player with that id, and is -1
/// only when no player has that id.
pub proof fn lemma_player_index(players: Seq<(PlayerId, Player)>, id: PlayerId)
    ensures
        -1 <= player_index(players, id) < players.len(),
        player_index(players, id) >= 0 ==> players[player_index(players, id)].0 == id,
        player_index(players, id) == -1 ==> forall|i: int|
            0 <= i < players.len() ==> (#[trigger] players[i]).0 != id,
    decreases players.len(),
{
    if players.len() > 0 {
        lemma_player_index(players.drop_last(), id);
        if players.last().0 != id {
            assert forall|i: int| 0 <= i < players.len() - 1 implies (#[trigger] players[i]).0
                == players.drop_last()[i].0 by {}
        }
    }
}

proof fn lemma_same_ids(a: Seq<(PlayerId, Player)>, b: Seq<(PlayerId, Player)>, id: PlayerId)
    requires
        a.len() == b.len(),
        forall|i: int| 0 <= i < a.len() ==> (#[trigger] a[i]).0 == b[i].0,
    ensures
        player_index(a, id) == player_index(b, id),
    decreases a.len(),
{
    if a.len() > 0 {
        assert forall|i: int| 0 <= i < a.len() - 1 implies (#[trigger] a.drop_last()[i]).0
            == b.drop_last()[i].0 by {
            assert(a.drop_last()[i] == a[i]);
            assert(b.drop_last()[i] == b[i]);
        }
        lemma_same_ids(a.drop_last(), b.drop_last(), id);
    }
}

proof fn lemma_push_index(players: Seq<(PlayerId, Player)>, entry: (PlayerId, Player), id: PlayerId)
    ensures
        player_index(players.push(entry), id) == if entry.0 == id {
            players.len() as int
        } else {
            player_index(players, id)
        },
{
    assert(players.push(entry).drop_last() =~= players);
}

fn find_player(players: &Vec<(PlayerId, Player)>, id: PlayerId) -> (r: Option<usize>)
    ensures
        match r {
            Some(i) => i as int == player_index(players@, id),
            None => player_index(players@, id) == -1,
        },
{
    let mut i: usize = players.len();
    proof {
        assert(players@.take(i as int) =~= players@);
    }
    while i > 0
        invariant
            i <= players.len(),
            player_index(players@, id) == player_index(players@.take(i as int), id),
        decreases i,
    {
        proof {
            assert(players@.take(i as int).drop_last() =~= players@.take(i - 1));
        }
        if players[i - 1].0 == id {
            return Some(i - 1);
        }
        i = i - 1;
    }
    None
}

/// One game: the locations to guess, in order, and the players.
pub struct Game {
    players: Vec<(PlayerId, Player)>,
    locations: Vec<Location>,
    locations_remaining: usize,
    dataset: String,
}

impl Game {
    pub closed spec fn players(&self) -> Seq<(PlayerId, Player)> {
        self.players@
    }

    pub closed spec fn locations(&self) -> Seq<Location> {
        self.locations@
    }

    pub closed spec fn remaining(&self) -> int {
        self.locations_remaining as int
    }

    pub closed spec fn dataset(&self) -> Seq<char> {
        self.dataset@
    }

    /// No more locations remain than there are, and player ids are unique.
    pub open spec fn wf(&self) -> bool {
        &&& self.remaining() <= self.locations().len()
        &&& forall|i: int, j: int|
            0 <= i < self.players().len() && 0 <= j < self.players().len()
                && (#[trigger] self.players()[i]).0 == (#[trigger] self.players()[j]).0 ==> i == j
    }

    /// The player with id `id`, when there is one.
    pub open spec fn player(&self, id: PlayerId) -> Option<Player> {
        let i = player_index(self.players(), id);
        if i >= 0 {
            Some(self.players()[i].1)
        } else {
            None
        }
    }

    /// Index of the location being guessed.
    pub open spec fn current(&self) -> int {
        self.locations().len() - self.remaining()
    }

    /// A game over up to `num_locations` locations drawn from `dataset`; a
    /// draw that gives nothing is left out.
    pub fn new(num_locations: usize, generator: &LocationGenerator, dataset: &str) -> (r: Game)
        ensures
            r.wf(),
            r.players() == Seq::<(PlayerId, Player)>::empty(),
            r.remaining() == r.locations().len(),
            r.locations().len() <= num_locations,
            r.dataset() == dataset@,
            generator is Mock ==> r.locations() == Seq::new(
                num_locations as nat,
                |i: int| mock_location(),
            ),
            generator is Datafile ==> {
                let chosen = chosen_points(generator->Datafile_0.datasets(), dataset@);
                &&& forall|k: int|
                    0 <= k < r.locations().len() ==> chosen->Some_0.contains(
                        #[trigger] r.locations()[k],
                    )
                &&& r.locations().len() == if chosen is Some && chosen->Some_0.len() > 0 {
                    num_locations as int
                } else {
                    0
                }
            },
    {
        let mut locations: Vec<Location> = Vec::new();
        let mut i: usize = 0;
        while i < num_locations
            invariant
                i <= num_locations,
                locations@.len() <= i,
                generator is Mock ==> locations@ == Seq::new(i as nat, |k: int| mock_location()),
                generator is Datafile ==> {
                    let chosen = chosen_points(generator->Datafile_0.datasets(), dataset@);
                    &&& forall|k: int|
                        0 <= k < locations@.len() ==> chosen->Some_0.contains(#[trigger] locations@[k])
                    &&& locations@.len() == if chosen is Some && chosen->Some_0.len() > 0 {
                        i as int
                    } else {
                        0
                    }
                },
            decreases num_locations - i,
        {
            match generator.sample(dataset) {
                Some(l) => {
                    locations.push(l);
                },
                None => {},
            }
            proof {
                if generator is Mock {
                    assert(locations@ =~= Seq::new((i + 1) as nat, |k: int| mock_location()));
                }
            }
            i = i + 1;
        }
        let n = locations.len();
        let g = Game {
            players: Vec::new(),
            locations,
            locations_remaining: n,
            dataset: dataset.to_owned(),
        };
        proof {
            assert(g.players() =~= Seq::<(PlayerId, Player)>::empty());
        }
        g
    }

    /// Adds a player who has not guessed yet; a player with the same id is
    /// replaced.
    pub fn add_player(&mut self, id: PlayerId, nickname: &str) -> (r: Result<(), Error>)
        requires
            old(self).wf(),
        ensures
            final(self).wf(),
            r is Ok,
            final(self).locations() == old(self).locations(),
            final(self).remaining() == old(self).remaining(),
            final(self).dataset() == old(self).dataset(),
            ({
                let p = final(self).player(id)->Some_0;
                &&& final(self).player(id) is Some
                &&& p.name@ == nickname@
                &&& p.points == 0
                &&& p.state == PlayerState::Joined
                &&& p.guesses@.len() == 0
            }),
            forall|other: PlayerId| other != id ==> final(self).player(other) == old(self).player(other),
            final(self).players().len() == old(self).players().len() + if old(self).player(id) is Some {
                0int
            } else {
                1
            },
    {
        let player = Player {
            name: nickname.to_owned(),
            points: 0,
            state: PlayerState::Joined,
            guesses: Vec::new(),
        };
        proof {
            lemma_player_index(self.players@, id);
        }
        match find_player(&self.players, id) {
            Some(i) => {
                self.players[i] = (id, player);
                proof {
                    assert forall|j: int| 0 <= j < self.players@.len() implies (
                    #[trigger] self.players@[j]).0 == old(self).players@[j].0 by {}
                    assert forall|x: PlayerId| true implies player_index(self.players@, x)
                        == player_index(old(self).players@, x) by {
                        lemma_same_ids(self.players@, old(self).players@, x);
                    }
                    assert forall|other: PlayerId| other != id implies self.player(other) == old(
                        self,
                    ).player(other) by {
                        lemma_same_ids(self.players@, old(self).players@, other);
                        lemma_player_index(old(self).players@, other);
                    }
                }
            },
            None => {
                self.players.push((id, player));
                proof {
                    assert forall|x: PlayerId| true implies player_index(self.players@, x) == if x
                        == id {
                        old(self).players@.len() as int
                    } else {
                        player_index(old(self).players@, x)
                    } by {
                        lemma_push_index(old(self).players@, (id, player), x);
                    }
                    assert forall|other: PlayerId| other != id implies self.player(other) == old(
                        self,
                    ).player(other) by {
                        lemma_push_index(old(self).players@, (id, player), other);
                        lemma_player_index(old(self).players@, other);
                    }
                }
            },
        }
        Ok(())
    }

    pub fn get_location(&self, idx: usize) -> (r: Location)
        requires
            idx < self.locations().len(),
        ensures
            r == self.locations()[idx as int],
    {
        self.locations[idx]
    }

    /// The location being guessed.
    pub fn get_current_location(&self) -> (r: Location)
        requires
            self.wf(),
            self.remaining() > 0,
        ensures
            r == self.locations()[self.current()],
    {
        self.locations[self.locations.len() - self.locations_remaining]
    }

    pub fn get_locations_remaining(&self) -> (r: usize)
        ensures
            r == self.remaining(),
    {
        self.locations_remaining
    }

    /// Ids of the players, in the order they joined.
    pub fn get_player_ids(&self) -> (r: Vec<PlayerId>)
        ensures
            r@ == self.players().map_values(|p: (PlayerId, Player)| p.0),
    {
        let mut ids: Vec<PlayerId> = Vec::new();
        let mut i: usize = 0;
        while i < self.players.len()
            invariant
                i <= self.players@.len(),
                ids@ == self.players@.take(i as int).map_values(|p: (PlayerId, Player)| p.0),
            decreases self.players.len() - i,
        {
            ids.push(self.players[i].0);
            i = i + 1;
            proof {
                assert(ids@ =~= self.players@.take(i as int).map_values(|p: (PlayerId, Player)| p.0));
            }
        }
        proof {
            assert(self.players@.take(i as int) =~= self.players@);
        }
        ids
    }

    pub fn get_player(&self, id: PlayerId) -> (r: Option<&Player>)
        ensures
            match r {
                Some(p) => self.player(id) == Some(*p),
                None => self.player(id) is None,
            },
    {
        proof {
            lemma_player_index(self.players@, id);
        }
        match find_player(&self.players, id) {
            Some(i) => Some(&self.players[i].1),
            None => None,
        }
    }

    pub fn is_finished(&self) -> (r: bool)
        ensures
            r == (self.remaining() == 0),
    {
        self.locations_remaining == 0
    }

    /// True if everyone has guessed for the current location
    pub fn everyone_guessed(&self) -> (r: bool)
        ensures
            r == forall|i: int|
                0 <= i < self.players().len() ==> (#[trigger] self.players()[i]).1.state
                    == PlayerState::GuessResults,
    {
        let mut i: usize = 0;
        while i < self.players.len()
            invariant
                i <= self.players@.len(),
                forall|j: int|
                    0 <= j < i ==> (#[trigger] self.players@[j]).1.state == PlayerState::GuessResults,
            decreases self.players.len() - i,
        {
            if self.players[i].1.state != PlayerState::GuessResults {
                return false;
            }
            i = i + 1;
        }
        true
    }

    /// Sets every player's state to `state`, keeping everything else.
    fn set_all_states(&mut self, state: PlayerState)
        ensures
            final(self).locations() == old(self).locations(),
            final(self).remaining() == old(self).remaining(),
            final(self).dataset() == old(self).dataset(),
            final(self).players().len() == old(self).players().len(),
            forall|i: int|
                0 <= i < final(self).players().len() ==> {
                    &&& (#[trigger] final(self).players()[i]).0 == old(self).players()[i].0
                    &&& final(self).players()[i].1.state == state
                    &&& final(self).players()[i].1.name == old(self).players()[i].1.name
                    &&& final(self).players()[i].1.points == old(self).players()[i].1.points
                    &&& final(self).players()[i].1.guesses == old(self).players()[i].1.guesses
                },
    {
        let mut i: usize = 0;
        while i < self.players.len()
            invariant
                i <= self.players@.len(),
                self.players@.len() == old(self).players@.len(),
                self.locations == old(self).locations,
                self.locations_remaining == old(self).locations_remaining,
                self.dataset == old(self).dataset,
                forall|j: int|
                    0 <= j < self.players@.len() ==> {
                        &&& (#[trigger] self.players@[j]).0 == old(self).players@[j].0
                        &&& self.players@[j].1.state == if j < i {
                            state
                        } else {
                            old(self).players@[j].1.state
                        }
                        &&& self.players@[j].1.name == old(self).players@[j].1.name
                        &&& self.players@[j].1.points == old(self).players@[j].1.points
                        &&& self.players@[j].1.guesses == old(self).players@[j].1.guesses
                    },
            decreases self.players.len() - i,
        {
            self.players[i].1.state = state;
            i = i + 1;
        }
    }

    /// Moves every player to guessing.
    pub fn start(&mut self)
        requires
            old(self).wf(),
        ensures
            final(self).wf(),
            final(self).locations() == old(self).locations(),
            final(self).remaining() == old(self).remaining(),
            final(self).dataset() == old(self).dataset(),
            final(self).players().len() == old(self).players().len(),
            forall|i: int|
                0 <= i < final(self).players().len() ==> {
                    &&& (#[trigger] final(self).players()[i]).0 == old(self).players()[i].0
                    &&& final(self).players()[i].1.state == PlayerState::Guessing
                    &&& final(self).players()[i].1.name == old(self).players()[i].1.name
                    &&& final(self).players()[i].1.points == old(self).players()[i].1.points
                    &&& final(self).players()[i].1.guesses == old(self).players()[i].1.guesses
                },
    {
        self.set_all_states(PlayerState::Guessing);
    }

    /// Move everybody to the next guess
    pub fn advance_guess(&mut self) -> (r: Result<(), Error>)
        requires
            old(self).wf(),
        ensures
            final(self).wf(),
            old(self).remaining() == 0 ==> r == Err::<(), Error>(Error::GameOver) && *final(self)
                == *old(self),
            old(self).remaining() > 0 ==> {
                &&& r is Ok
                &&& final(self).remaining() == old(self).remaining() - 1
                &&& final(self).locations() == old(self).locations()
                &&& final(self).dataset() == old(self).dataset()
                &&& final(self).players().len() == old(self).players().len()
                &&& forall|i: int|
                    0 <= i < final(self).players().len() ==> {
                        &&& (#[trigger] final(self).players()[i]).0 == old(self).players()[i].0
                        &&& final(self).players()[i].1.state == if final(self).remaining() == 0 {
                            PlayerState::FinalResults
                        } else {
                            PlayerState::Guessing
                        }
                        &&& final(self).players()[i].1.name == old(self).players()[i].1.name
                        &&& final(self).players()[i].1.points == old(self).players()[i].1.points
                        &&& final(self).players()[i].1.guesses == old(self).players()[i].1.guesses
                    }
            },
    {
        if self.locations_remaining == 0 {
            return Err(Error::GameOver);
        }
        self.locations_remaining = self.locations_remaining - 1;
        let state = if self.locations_remaining == 0 {
            PlayerState::FinalResults
        } else {
            PlayerState::Guessing
        };
        self.set_all_states(state);
        Ok(())
    }

    /// Records a guess of player `player_id` for the current location, worth
    /// `points` as scored from its distance to the location.
    pub fn guess(&mut self, player_id: PlayerId, guess: &Location, points: Points) -> (r: Result<
        GuessResult,
        Error,
    >)
        requires
            old(self).wf(),
            old(self).player(player_id) is Some,
            old(self).player(player_id)->Some_0.points + points <= usize::MAX,
        ensures
            final(self).wf(),
            old(self).remaining() == 0 ==> r is Err && r->Err_0 == Error::GameOver && *final(self)
                == *old(self),
            old(self).remaining() > 0 ==> {
                let before = old(self).player(player_id)->Some_0;
                let after = final(self).player(player_id)->Some_0;
                &&& r is Ok
                &&& r->Ok_0.guess == *guess
                &&& r->Ok_0.actual == old(self).locations()[old(self).current()]
                &&& r->Ok_0.points_gained == points
                &&& r->Ok_0.new_points == after.points
                &&& final(self).player(player_id) is Some
                &&& after.points == before.points + points
                &&& after.state == PlayerState::GuessResults
                &&& after.name == before.name
                &&& after.guesses@ == before.guesses@.push(*guess)
                &&& final(self).locations() == old(self).locations()
                &&& final(self).remaining() == old(self).remaining()
                &&& final(self).dataset() == old(self).dataset()
                &&& final(self).players() == old(self).players().update(
                    player_index(old(self).players(), player_id),
                    (player_id, after),
                )
                &&& forall|other: PlayerId|
                    other != player_id ==> final(self).player(other) == old(self).player(other)
            },
    {
        if self.locations_remaining == 0 {
            return Err(Error::GameOver);
        }
        let actual = self.get_current_location();
        proof {
            lemma_player_index(self.players@, player_id);
        }
        let i = match find_player(&self.players, player_id) {
            Some(i) => i,
            None => {
                return Err(Error::GameOver);
            },
        };
        let new_points = self.players[i].1.points + points;
        self.players[i].1.points = new_points;
        self.players[i].1.state = PlayerState::GuessResults;
        self.players[i].1.guesses.push(*guess);
        proof {
            assert forall|j: int| 0 <= j < self.players@.len() implies (
            #[trigger] self.players@[j]).0 == old(self).players@[j].0 by {}
            assert forall|x: PlayerId| true implies player_index(self.players@, x) == player_index(
                old(self).players@,
                x,
            ) by {
                lemma_same_ids(self.players@, old(self).players@, x);
            }
            assert forall|other: PlayerId| other != player_id implies self.player(other) == old(
                self,
            ).player(other) by {
                lemma_same_ids(self.players@, old(self).players@, other);
                lemma_player_index(old(self).players@, other);
            }
            lemma_same_ids(self.players@, old(self).players@, player_id);
        }
        Ok(GuessResult { guess: *guess, actual, points_gained: points, new_points })
    }
}

} // verus!
