//! The colours of the desktop.
use crate::screen;
use crate::screen::{Screen, ScreenView};
use vstd::prelude::*;

verus! {

/// A colour of the palette, six bits for each of its parts.
#[derive(Clone, Copy, Debug, PartialEq, Eq, Structural)]
pub struct PaletteWrite {
    pub index: u8,
    pub red: u8,
    pub green: u8,
    pub blue: u8,
}

/// The colours that the desktop is drawn in.
pub open spec fn desktop_palette() -> Seq<PaletteWrite> {
    seq![
        PaletteWrite { index: 64, red: 63, green: 63, blue: 63 },
        PaletteWrite { index: 65, red: 10, green: 42, blue: 58 },
        PaletteWrite { index: 66, red: 0, green: 0, blue: 0 },
        PaletteWrite { index: 67, red: 63, green: 58, blue: 0 },
        PaletteWrite { index: 68, red: 63, green: 32, blue: 0 },
        PaletteWrite { index: 69, red: 63, green: 10, blue: 10 },
        PaletteWrite { index: 70, red: 42, green: 58, blue: 63 },
        PaletteWrite { index: 71, red: 49, green: 51, blue: 55 },
        PaletteWrite { index: 72, red: 48, green: 54, blue: 62 },
        PaletteWrite { index: 73, red: 2, green: 2, blue: 2 },
        PaletteWrite { index: 74, red: 24, green: 28, blue: 35 },
        PaletteWrite { index: 75, red: 60, green: 61, blue: 62 },
        PaletteWrite { index: 76, red: 14, green: 42, blue: 18 },
        PaletteWrite { index: 77, red: 10, green: 18, blue: 35 },
        PaletteWrite { index: 78, red: 32, green: 14, blue: 24 },
        PaletteWrite { index: 79, red: 42, green: 34, blue: 18 },
        PaletteWrite { index: 80, red: 41, green: 50, blue: 57 },
        PaletteWrite { index: 81, red: 60, green: 62, blue: 63 },
        PaletteWrite { index: 82, red: 30, green: 41, blue: 48 },
        PaletteWrite { index: 83, red: 6, green: 10, blue: 18 },
        PaletteWrite { index: 84, red: 57, green: 58, blue: 60 },
        PaletteWrite { index: 85, red: 51, green: 54, blue: 57 },
        PaletteWrite { index: 86, red: 20, green: 34, blue: 40 },
        PaletteWrite { index: 87, red: 18, green: 28, blue: 36 },
        PaletteWrite { index: 88, red: 36, green: 57, blue: 63 },
        PaletteWrite { index: 89, red: 53, green: 31, blue: 18 },
        PaletteWrite { index: 90, red: 12, green: 18, blue: 24 },
        PaletteWrite { index: 91, red: 26, green: 48, blue: 63 },
        PaletteWrite { index: 92, red: 63, green: 43, blue: 18 },
        PaletteWrite { index: 93, red: 26, green: 63, blue: 52 },
        PaletteWrite { index: 94, red: 8, green: 12, blue: 18 },
    ]
}

fn desktop_colors() -> (colors: Vec<PaletteWrite>)
    ensures
        colors@ == desktop_palette(),
{
    let colors = vec![
        PaletteWrite { index: 64, red: 63, green: 63, blue: 63 },
        PaletteWrite { index: 65, red: 10, green: 42, blue: 58 },
        PaletteWrite { index: 66, red: 0, green: 0, blue: 0 },
        PaletteWrite { index: 67, red: 63, green: 58, blue: 0 },
        PaletteWrite { index: 68, red: 63, green: 32, blue: 0 },
        PaletteWrite { index: 69, red: 63, green: 10, blue: 10 },
        PaletteWrite { index: 70, red: 42, green: 58, blue: 63 },
        PaletteWrite { index: 71, red: 49, green: 51, blue: 55 },
        PaletteWrite { index: 72, red: 48, green: 54, blue: 62 },
        PaletteWrite { index: 73, red: 2, green: 2, blue: 2 },
        PaletteWrite { index: 74, red: 24, green: 28, blue: 35 },
        PaletteWrite { index: 75, red: 60, green: 61, blue: 62 },
        PaletteWrite { index: 76, red: 14, green: 42, blue: 18 },
        PaletteWrite { index: 77, red: 10, green: 18, blue: 35 },
        PaletteWrite { index: 78, red: 32, green: 14, blue: 24 },
        PaletteWrite { index: 79, red: 42, green: 34, blue: 18 },
        PaletteWrite { index: 80, red: 41, green: 50, blue: 57 },
        PaletteWrite { index: 81, red: 60, green: 62, blue: 63 },
        PaletteWrite { index: 82, red: 30, green: 41, blue: 48 },
        PaletteWrite { index: 83, red: 6, green: 10, blue: 18 },
        PaletteWrite { index: 84, red: 57, green: 58, blue: 60 },
        PaletteWrite { index: 85, red: 51, green: 54, blue: 57 },
        PaletteWrite { index: 86, red: 20, green: 34, blue: 40 },
        PaletteWrite { index: 87, red: 18, green: 28, blue: 36 },
        PaletteWrite { index: 88, red: 36, green: 57, blue: 63 },
        PaletteWrite { index: 89, red: 53, green: 31, blue: 18 },
        PaletteWrite { index: 90, red: 12, green: 18, blue: 24 },
        PaletteWrite { index: 91, red: 26, green: 48, blue: 63 },
        PaletteWrite { index: 92, red: 63, green: 43, blue: 18 },
        PaletteWrite { index: 93, red: 26, green: 63, blue: 52 },
        PaletteWrite { index: 94, red: 8, green: 12, blue: 18 },
    ];
    assert(colors@ =~= desktop_palette());
    colors
}

/// The colours of the wallpaper, from the first of the palette on.
pub open spec fn wallpaper_writes(colors: Seq<(u8, u8, u8)>) -> Seq<PaletteWrite> {
    Seq::new(
        colors.len(),
        |i: int| PaletteWrite {
            index: i as u8,
            red: colors[i].0,
            green: colors[i].1,
            blue: colors[i].2,
        },
    )
}

/// The screen with the first colours set.
pub open spec fn colored(screen: ScreenView, writes: Seq<PaletteWrite>, count: nat) -> ScreenView
    decreases count,
{
    if count == 0 {
        screen
    } else {
        let before = colored(screen, writes, (count - 1) as nat);
        let write = writes[count - 1];
        ScreenView {
            palette: before.palette.update(
                write.index as int,
                screen::packed(
                    screen::widened(write.red),
                    screen::widened(write.green),
                    screen::widened(write.blue),
                ),
            ),
            ..before
        }
    }
}

/// Sets the colours of the wallpaper and of the desktop, and gives them for the colour
/// registers.
pub fn configure_palette(screen: &mut Screen, colors: &[(u8, u8, u8)]) -> (writes: Vec<
    PaletteWrite,
>)
    requires
        old(screen)@.wf(),
        colors@.len() <= 256,
    ensures
        final(screen)@.wf(),
        writes@ == wallpaper_writes(colors@) + desktop_palette(),
        final(screen)@ == colored(old(screen)@, writes@, writes@.len()),
{
    let mut writes: Vec<PaletteWrite> = Vec::new();
    let mut index: usize = 0;
    while index < colors.len()
        invariant
            index <= colors@.len() <= 256,
            writes@.len() == index,
            forall|i: int|
                0 <= i < index ==> #[trigger] writes@[i] == wallpaper_writes(colors@)[i],
        decreases colors@.len() - index,
    {
        let color = colors[index];
        writes.push(
            PaletteWrite { index: index as u8, red: color.0, green: color.1, blue: color.2 },
        );
        index += 1;
    }
    assert(writes@ =~= wallpaper_writes(colors@));
    let mut own = desktop_colors();
    writes.append(&mut own);
    assert(writes@ =~= wallpaper_writes(colors@) + desktop_palette());
    let mut next: usize = 0;
    while next < writes.len()
        invariant
            next <= writes@.len(),
            screen@.wf(),
            screen@ == colored(old(screen)@, writes@, next as nat),
        decreases writes@.len() - next,
    {
        let write = writes[next];
        let _ = screen.set_palette_entry(write.index, write.red, write.green, write.blue);
        next += 1;
    }
    writes
}

} // verus!
