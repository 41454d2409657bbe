use vstd::prelude::*;
use crate::model::{raw_section_view, RawSections, SectionView, Tab};

verus! {
/// No local keymap override under ~/.config/spotify-player (only app.toml,
/// no keymap.toml) — static table from spotify_player's documented default
/// keymaps.
pub open spec fn spotify_keys() -> Seq<SectionView> {
    seq![
        ("Playback"@, seq![
            ("space"@, "Play / pause"@),
            ("n / p"@, "Próxima / anterior faixa"@),
            ("< / >"@, "Retroceder / avançar 5s"@),
            ("- / +"@, "Volume down / up"@),
            (". "@, "Toggle repeat"@),
            (","@, "Toggle shuffle"@),
            ("z"@, "Toggle like"@),
        ]),
        ("Navegação"@, seq![
            ("j / k"@, "Baixo / cima"@),
            ("h / l"@, "Esquerda / direita"@),
            ("g / G"@, "Topo / fim"@),
            ("Tab / Shift+Tab"@, "Próxima / página anterior"@),
            ("Enter"@, "Selecionar"@),
            ("Escape"@, "Voltar / fechar popup"@),
        ]),
        ("Busca e contexto"@, seq![
            ("/"@, "Buscar"@),
            ("s"@, "Abrir search page"@),
            ("c"@, "Abrir contexto (playlist/álbum/artista) atual"@),
            ("C"@, "Menu de contexto (browse)"@),
            ("q"@, "Adicionar à queue"@),
            ("Q"@, "Abrir queue"@),
        ]),
        ("Devices e Misc"@, seq![
            ("D"@, "Selecionar device"@),
            ("?"@, "Help popup (lista completa de shortcuts)"@),
            ("Ctrl+q"@, "Sair"@),
        ]),
    ]
}

/// The table as static data.
fn table() -> (r: RawSections<'static>)
    ensures
        r@.map_values(|s: (&str, &[(&str, &str)])| raw_section_view(s)) == spotify_keys(),
{
    let r: RawSections<'static> = &[
        (
            "Playback",
            &[
                ("space", "Play / pause"),
                ("n / p", "Próxima / anterior faixa"),
                ("< / >", "Retroceder / avançar 5s"),
                ("- / +", "Volume down / up"),
                (". ", "Toggle repeat"),
                (",", "Toggle shuffle"),
                ("z", "Toggle like"),
            ],
        ),
        (
            "Navegação",
            &[
                ("j / k", "Baixo / cima"),
                ("h / l", "Esquerda / direita"),
                ("g / G", "Topo / fim"),
                ("Tab / Shift+Tab", "Próxima / página anterior"),
                ("Enter", "Selecionar"),
                ("Escape", "Voltar / fechar popup"),
            ],
        ),
        (
            "Busca e contexto",
            &[
                ("/", "Buscar"),
                ("s", "Abrir search page"),
                ("c", "Abrir contexto (playlist/álbum/artista) atual"),
                ("C", "Menu de contexto (browse)"),
                ("q", "Adicionar à queue"),
                ("Q", "Abrir queue"),
            ],
        ),
        (
            "Devices e Misc",
            &[
                ("D", "Selecionar device"),
                ("?", "Help popup (lista completa de shortcuts)"),
                ("Ctrl+q", "Sair"),
            ],
        ),
    ];
    assert(raw_section_view(r@[0]) =~= spotify_keys()[0]);
    assert(raw_section_view(r@[1]) =~= spotify_keys()[1]);
    assert(raw_section_view(r@[2]) =~= spotify_keys()[2]);
    assert(raw_section_view(r@[3]) =~= spotify_keys()[3]);
    assert(r@.map_values(|s: (&str, &[(&str, &str)])| raw_section_view(s)) =~= spotify_keys());
    r
}

/// The Spotify tab.
pub fn load() -> (t: Tab)
    ensures
        t.app@ == "Spotify"@,
        t.window_class@.len() == 2,
        t.window_class@[0]@ == "spotify_player"@,
        t.window_class@[1]@ == "spotify-player"@,
        t.aliases@.len() == 0,
        t.sections_view() == spotify_keys(),
{
    Tab::from_raw("Spotify", &["spotify_player", "spotify-player"], &[], table())
}

} // verus!
