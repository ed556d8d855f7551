//! The dungeon: a map of five by five fields with walls and traps.
use crate::apps;
use crate::apps::{copied, filled96, Script, StepView};
use crate::chars;
use crate::fixed;
use crate::fixed::InlineString;
use crate::lines;
use crate::lines::Line;
use crate::text;
use vstd::prelude::*;
use vstd::string::*;

verus! {

/// A wall, a trap or plain floor.
pub open spec fn tile(x: int, y: int) -> u8 {
    if (x == 1 && y == 0) || (x == 3 && y == 0) || (x == 3 && y == 1) || (x == 1 && y == 2) || (x
        == 1 && y == 3) || (x == 3 && y == 3) {
        35
    } else if (x == 2 && y == 1) || (x == 4 && y == 1) || (x == 2 && y == 3) || (x == 0 && y == 4) {
        33
    } else {
        46
    }
}

fn tile_at(x: usize, y: usize) -> (ch: u8)
    ensures
        ch == tile(x as int, y as int),
{
    if (x == 1 && y == 0) || (x == 3 && y == 0) || (x == 3 && y == 1) || (x == 1 && y == 2) || (x
        == 1 && y == 3) || (x == 3 && y == 3) {
        35
    } else if (x == 2 && y == 1) || (x == 4 && y == 1) || (x == 2 && y == 3) || (x == 0 && y == 4) {
        33
    } else {
        46
    }
}

/// A game: where the player stands, how much life is left and how many steps were taken.
#[derive(Clone, Copy, Debug, PartialEq, Eq, Structural)]
pub struct DungeonGame {
    pub x: usize,
    pub y: usize,
    pub hp: i32,
    pub steps: usize,
}

/// What is shown of a field.
pub open spec fn field(game: DungeonGame, x: int, y: int) -> u8 {
    if x == game.x && y == game.y {
        64
    } else if x == 0 && y == 0 {
        83
    } else if x == 4 && y == 4 {
        69
    } else {
        tile(x, y)
    }
}

/// What is shown of a row, up to a field.
pub open spec fn row_bytes(game: DungeonGame, y: int, count: nat) -> Seq<u8>
    decreases count,
{
    if count == 0 {
        Seq::empty()
    } else {
        row_bytes(game, y, (count - 1) as nat).push(field(game, count - 1, y)).push(32)
    }
}

/// What is shown of the first rows.
pub open spec fn row_steps(game: DungeonGame, count: nat) -> Seq<StepView>
    decreases count,
{
    if count == 0 {
        Seq::empty()
    } else {
        row_steps(game, (count - 1) as nat).push(StepView::Line(row_bytes(game, count - 1, 5)))
    }
}

/// The map.
pub open spec fn map_steps(game: DungeonGame) -> Seq<StepView> {
    row_steps(game, 5).push(
        apps::said("Legend: @ you, S start, E exit, # wall, ! trap, . floor"),
    )
}

/// The line that says how the game stands.
pub open spec fn status_step(game: DungeonGame) -> StepView {
    apps::wrote(
        seq![
            text::literal("pos=("),
            fixed::decimal(game.x as nat),
            text::literal(", "),
            fixed::decimal(game.y as nat),
            text::literal(") hp="),
        ] + lines::signed_pieces(game.hp as int) + seq![
            text::literal(" steps="),
            fixed::decimal(game.steps as nat),
        ],
        96,
    )
}

/// What a step in a direction does: the game after it, what is shown, and how the game
/// ends, if it does.
pub open spec fn stepped(game: DungeonGame, dx: int, dy: int) -> (
    DungeonGame,
    Seq<StepView>,
    Option<i32>,
) {
    let x = game.x + dx;
    let y = game.y + dy;
    if x < 0 || y < 0 || x >= 5 || y >= 5 {
        (game, seq![apps::said("Edge of map.")], None)
    } else if tile(x, y) == 35 {
        (game, seq![apps::said("A wall blocks the path.")] + map_steps(game), None)
    } else {
        let trapped = tile(x, y) == 33;
        let after = DungeonGame {
            x: x as usize,
            y: y as usize,
            hp: (if trapped {
                game.hp - 1
            } else {
                game.hp as int
            }) as i32,
            steps: (game.steps + 1) as usize,
        };
        let told = seq![
            if trapped {
                apps::said("Trap! You lost 1 HP.")
            } else {
                apps::said("You moved safely.")
            },
            status_step(after),
        ] + map_steps(after);
        if after.hp <= 0 {
            (after, told.push(apps::said("Game over.")), Some(1))
        } else if x == 4 && y == 4 {
            (after, told.push(apps::said("Victory. You reached the exit.")), Some(0))
        } else {
            (after, told, None)
        }
    }
}

/// What a command does.
pub open spec fn commanded(game: DungeonGame, command: Seq<char>) -> (
    DungeonGame,
    Seq<StepView>,
    Option<i32>,
) {
    if command == ""@ {
        (game, Seq::empty(), None)
    } else if command == "help"@ {
        (
            game,
            seq![
                apps::said("Move with: north south west east"),
                apps::said("Use: map, status, quit"),
            ],
            None,
        )
    } else if command == "map"@ {
        (game, map_steps(game), None)
    } else if command == "status"@ {
        (game, seq![status_step(game)], None)
    } else if command == "north"@ || command == "up"@ || command == "w"@ {
        stepped(game, 0, -1)
    } else if command == "south"@ || command == "down"@ || command == "s"@ {
        stepped(game, 0, 1)
    } else if command == "west"@ || command == "left"@ || command == "a"@ {
        stepped(game, -1, 0)
    } else if command == "east"@ || command == "right"@ || command == "d"@ {
        stepped(game, 1, 0)
    } else if command == "quit"@ || command == "exit"@ {
        (game, seq![apps::said("Leaving the dungeon.")], Some(0))
    } else {
        (
            game,
            seq![
                apps::wrote(
                    seq![text::literal("unknown command: "), chars::encoded(command)],
                    96,
                ),
            ],
            None,
        )
    }
}

impl DungeonGame {
    /// The player stands on the map and is alive, and the steps can be counted on.
    pub open spec fn wf(self) -> bool {
        self.x < 5 && self.y < 5 && 0 < self.hp <= 3 && self.steps < usize::MAX
    }

    pub fn new() -> (game: Self)
        ensures
            game == (DungeonGame { x: 0, y: 0, hp: 3, steps: 0 }),
            game.wf(),
    {
        DungeonGame { x: 0, y: 0, hp: 3, steps: 0 }
    }

    fn render(&self, script: &mut Script)
        ensures
            final(script)@ == old(script)@ + map_steps(*self),
    {
        let mut y: usize = 0;
        assert(script@ =~= old(script)@ + row_steps(*self, 0));
        while y < 5
            invariant
                y <= 5,
                script@ == old(script)@ + row_steps(*self, y as nat),
            decreases 5 - y,
        {
            let mut line: InlineString<32> = InlineString::new();
            let mut x: usize = 0;
            while x < 5
                invariant
                    x <= 5,
                    line@.len() == 2 * x,
                    line@ == row_bytes(*self, y as int, x as nat),
                decreases 5 - x,
            {
                let ch: u8 = if x == self.x && y == self.y {
                    64
                } else if x == 0 && y == 0 {
                    83
                } else if x == 4 && y == 4 {
                    69
                } else {
                    tile_at(x, y)
                };
                let _ = line.push_byte(ch);
                let _ = line.push_byte(32);
                x += 1;
            }
            script.line(copied(line.as_bytes()));
            y += 1;
            assert(script@ =~= old(script)@ + row_steps(*self, y as nat));
        }
        script.say("Legend: @ you, S start, E exit, # wall, ! trap, . floor");
        assert(script@ =~= old(script)@ + map_steps(*self));
    }

    fn status(&self, script: &mut Script)
        ensures
            final(script)@ == old(script)@.push(status_step(*self)),
    {
        let line = Line::new().text("pos=(").number(self.x as u64).text(", ").number(
            self.y as u64,
        ).text(") hp=").signed(self.hp as i64).text(" steps=").number(self.steps as u64);
        assert(line@ =~= seq![
            text::literal("pos=("),
            fixed::decimal(self.x as nat),
            text::literal(", "),
            fixed::decimal(self.y as nat),
            text::literal(") hp="),
        ] + lines::signed_pieces(self.hp as int) + seq![
            text::literal(" steps="),
            fixed::decimal(self.steps as nat),
        ]);
        script.line(filled96(line));
    }

    fn step(&mut self, dx: i8, dy: i8, script: &mut Script) -> (end: Option<i32>)
        requires
            old(self).wf(),
            -1 <= dx <= 1,
            -1 <= dy <= 1,
        ensures
            ({
                let (game, told, code) = stepped(*old(self), dx as int, dy as int);
                &&& *final(self) == game
                &&& final(script)@ == old(script)@ + told
                &&& end == code
            }),
    {
        let x: i64 = self.x as i64 + dx as i64;
        let y: i64 = self.y as i64 + dy as i64;
        if x < 0 || y < 0 || x >= 5 || y >= 5 {
            script.say("Edge of map.");
            assert(script@ =~= old(script)@ + seq![apps::said("Edge of map.")]);
            return None;
        }
        if tile_at(x as usize, y as usize) == 35 {
            script.say("A wall blocks the path.");
            self.render(script);
            assert(script@ =~= old(script)@ + (seq![apps::said("A wall blocks the path.")]
                + map_steps(*self)));
            return None;
        }
        self.x = x as usize;
        self.y = y as usize;
        self.steps = self.steps + 1;
        let trapped = tile_at(self.x, self.y) == 33;
        if trapped {
            self.hp = self.hp - 1;
            script.say("Trap! You lost 1 HP.");
        } else {
            script.say("You moved safely.");
        }
        self.status(script);
        self.render(script);
        let ghost told = seq![
            if trapped {
                apps::said("Trap! You lost 1 HP.")
            } else {
                apps::said("You moved safely.")
            },
            status_step(*self),
        ] + map_steps(*self);
        assert(script@ =~= old(script)@ + told);
        if self.hp <= 0 {
            script.say("Game over.");
            assert(script@ =~= old(script)@ + told.push(apps::said("Game over.")));
            return Some(1);
        }
        if self.x == 4 && self.y == 4 {
            script.say("Victory. You reached the exit.");
            assert(script@ =~= old(script)@ + told.push(
                apps::said("Victory. You reached the exit."),
            ));
            return Some(0);
        }
        None
    }

    /// The lines that a game starts with.
    pub fn begin(&self) -> (script: Script)
        ensures
            script@ == seq![
                apps::said("Rustix v-kernel ASCII dungeon"),
                apps::said("Commands: north south west east map status help quit"),
            ] + map_steps(*self),
    {
        let mut script = Script::new();
        script.say("Rustix v-kernel ASCII dungeon");
        script.say("Commands: north south west east map status help quit");
        assert(script@ =~= seq![
            apps::said("Rustix v-kernel ASCII dungeon"),
            apps::said("Commands: north south west east map status help quit"),
        ]);
        self.render(&mut script);
        script
    }

    /// Does what a command says, which stands without white space around it.
    pub fn command(&mut self, command: &[char]) -> (result: (Script, Option<i32>))
        requires
            old(self).wf(),
        ensures
            (*final(self), result.0@, result.1) == commanded(*old(self), command@),
    {
        let mut script = Script::new();
        proof {
            reveal_strlit("");
        }
        if command.len() == 0 {
            assert(command@ =~= ""@);
            return (script, None);
        }
        assert(command@ != ""@);
        if chars::is(command, "help") {
            script.say("Move with: north south west east");
            script.say("Use: map, status, quit");
            assert(script@ =~= commanded(*self, command@).1);
            return (script, None);
        }
        let ghost empty = script@;
        if chars::is(command, "map") {
            self.render(&mut script);
            assert(script@ =~= map_steps(*self));
            return (script, None);
        }
        if chars::is(command, "status") {
            self.status(&mut script);
            assert(script@ =~= seq![status_step(*self)]);
            return (script, None);
        }
        let direction: Option<(i8, i8)> = if chars::is(command, "north") || chars::is(
            command,
            "up",
        ) || chars::is(command, "w") {
            Some((0, -1))
        } else if chars::is(command, "south") || chars::is(command, "down") || chars::is(
            command,
            "s",
        ) {
            Some((0, 1))
        } else if chars::is(command, "west") || chars::is(command, "left") || chars::is(
            command,
            "a",
        ) {
            Some((-1, 0))
        } else if chars::is(command, "east") || chars::is(command, "right") || chars::is(
            command,
            "d",
        ) {
            Some((1, 0))
        } else {
            None
        };
        if let Some((dx, dy)) = direction {
            let end = self.step(dx, dy, &mut script);
            assert(script@ =~= stepped(*old(self), dx as int, dy as int).1);
            return (script, end);
        }
        if chars::is(command, "quit") || chars::is(command, "exit") {
            script.say("Leaving the dungeon.");
            assert(script@ =~= seq![apps::said("Leaving the dungeon.")]);
            return (script, Some(0));
        }
        let word = chars::encode(command);
        let line = Line::new().text("unknown command: ").bytes(word.as_slice());
        assert(line@ =~= seq![text::literal("unknown command: "), word@]);
        script.line(filled96(line));
        assert(script@ =~= commanded(*self, command@).1);
        (script, None)
    }
}

/// The player never leaves the map, never stands on a wall that they were not on, loses at
/// most one life a step, and the game ends where the exit or no life is reached.
pub proof fn law_steps_stay_on_the_map(game: DungeonGame, dx: int, dy: int)
    requires
        game.wf(),
        -1 <= dx <= 1,
        -1 <= dy <= 1,
    ensures
        stepped(game, dx, dy).0.x < 5,
        stepped(game, dx, dy).0.y < 5,
        stepped(game, dx, dy).0 != game ==> tile(
            stepped(game, dx, dy).0.x as int,
            stepped(game, dx, dy).0.y as int,
        ) != 35,
        game.hp - 1 <= stepped(game, dx, dy).0.hp <= game.hp,
        stepped(game, dx, dy).2 == Some(0i32) ==> stepped(game, dx, dy).0.x == 4 && stepped(
            game,
            dx,
            dy,
        ).0.y == 4,
        stepped(game, dx, dy).2 == Some(1i32) ==> stepped(game, dx, dy).0.hp <= 0,
        stepped(game, dx, dy).2 is None && game.steps < usize::MAX - 1 ==> stepped(
            game,
            dx,
            dy,
        ).0.wf(),
{
}

} // verus!
