//! The built-in translation catalogs, used when no language file can be read.

use vstd::prelude::*;

verus! {

/// English catalog, a JSON object from translation keys to texts.
pub const DEFAULT_EN: &'static str = "{
  \"app.window_title\": \"naluminaLink\",
  \"ui.tagline\": \"Modular audio routing on PipeWire\",
  \"cli.subtitle\": \"naluminaLink - modular Linux audio router on PipeWire\",
  \"cli.usage\": \"Usage: nalumina-link [command]\",
  \"cli.help\": \"  help        Show this help\",
  \"cli.doctor\": \"  doctor      Print a basic health message\",
  \"cli.ui\": \"  ui          Open the desktop UI (default)\",
  \"cli.list_nodes\": \"  list-nodes  List PipeWire nodes\",
  \"doctor.message\": \"naluminaLink is installed and ready.\",
  \"error.gui\": \"Could not start the desktop UI: {{error}}\",
  \"error.list_nodes\": \"Could not list nodes: {{error}}\",
  \"error.unknown_command\": \"Unknown command: {{command}}\",
  \"nodes.empty\": \"No PipeWire nodes found.\",
  \"status.ready\": \"Ready\",
  \"status.refreshing_nodes\": \"Refreshing nodes...\",
  \"status.loaded_nodes\": \"Loaded {{count}} nodes\",
  \"status.refresh_failed\": \"Refresh failed ({{source}}): {{error}}\",
  \"status.refresh_disconnected\": \"Refresh worker disconnected\",
  \"status.refresh_error_source.node_discovery\": \"node discovery\",
  \"status.scene_applied\": \"Scene applied\",
  \"ui.bus.monitor\": \"Monitor Mix\",
  \"ui.bus.stream\": \"Stream Mix\",
  \"ui.bus.chat\": \"Chat Mix\",
  \"ui.bus.fx_return\": \"FX Return\",
  \"ui.bus.generic\": \"Mix {{index}}\",
  \"ui.button.add_input\": \"Add input\",
  \"ui.button.add_input_hint\": \"Add another input channel\",
  \"ui.button.doctor\": \"Doctor\",
  \"ui.button.refresh_nodes\": \"Refresh nodes\",
  \"ui.channel.id\": \"ID {{id}}\",
  \"ui.channel.monitor_send\": \"Monitor send\",
  \"ui.channel.mute\": \"Mute\",
  \"ui.channel.stream_send\": \"Stream send\",
  \"ui.channel.unmute\": \"Unmute\",
  \"ui.device.unassigned\": \"Unassigned\",
  \"ui.input.default_name\": \"Input {{index}}\",
  \"ui.inputs.empty\": \"No input channels yet.\",
  \"ui.label.master_bus_level\": \"Master bus level\",
  \"ui.label.mix_outputs_count\": \"Mix outputs\",
  \"ui.label.monitor_mix_level\": \"Monitor mix level\",
  \"ui.label.node_filter\": \"Filter\",
  \"ui.label.status\": \"Status:\",
  \"ui.label.stream_mix_level\": \"Stream mix level\",
  \"ui.label.visible_channels\": \"Visible channels\",
  \"ui.node.channels\": \"{{count}} ch\",
  \"ui.node.description_format\": \"({{description}})\",
  \"ui.nodes.filter_empty\": \"No channels match the filter.\",
  \"ui.nodes.visible_count\": \"Showing {{shown}} of {{total}} nodes\",
  \"ui.output\": \"Output:\",
  \"ui.placeholder.node_filter\": \"Name, id or source\",
  \"ui.route.summary\": \"Monitor {{monitor}} / Stream {{stream}}\",
  \"ui.scene\": \"Scene:\",
  \"ui.scene.default_streaming\": \"Default streaming\",
  \"ui.section.channel_rack\": \"Channel rack\",
  \"ui.section.channel_rack_subtitle\": \"Levels and mute per node\",
  \"ui.section.mix_matrix\": \"Mix matrix\",
  \"ui.section.mix_matrix_subtitle\": \"Input channels and their sources\",
  \"ui.section.mix_outputs\": \"Mix outputs\",
  \"ui.section.mix_outputs_subtitle\": \"Level of every mix bus\",
  \"ui.section.node_browser\": \"Node browser\",
  \"ui.section.node_browser_subtitle\": \"PipeWire nodes found on this system\",
  \"ui.section.routing_buses\": \"Routing buses\",
  \"ui.section.routing_buses_subtitle\": \"Choose the bus to route to\",
  \"ui.section.workspace_controls\": \"Workspace\",
  \"ui.section.workspace_controls_subtitle\": \"Filter, visible channels and mix outputs\"
}";

/// German catalog, a JSON object from translation keys to texts.
pub const DEFAULT_DE: &'static str = "{
  \"app.window_title\": \"naluminaLink\",
  \"ui.tagline\": \"Modulares Audio-Routing auf PipeWire\",
  \"cli.subtitle\": \"naluminaLink - modularer Linux-Audio-Router auf PipeWire\",
  \"cli.usage\": \"Aufruf: nalumina-link [Befehl]\",
  \"cli.help\": \"  help        Diese Hilfe anzeigen\",
  \"cli.doctor\": \"  doctor      Einfache Statusmeldung ausgeben\",
  \"cli.ui\": \"  ui          Desktop-Oberfläche öffnen (Standard)\",
  \"cli.list_nodes\": \"  list-nodes  PipeWire-Knoten auflisten\",
  \"doctor.message\": \"naluminaLink ist installiert und bereit.\",
  \"error.gui\": \"Desktop-Oberfläche konnte nicht starten: {{error}}\",
  \"error.list_nodes\": \"Knoten konnten nicht gelistet werden: {{error}}\",
  \"error.unknown_command\": \"Unbekannter Befehl: {{command}}\",
  \"nodes.empty\": \"Keine PipeWire-Knoten gefunden.\",
  \"status.ready\": \"Bereit\",
  \"status.refreshing_nodes\": \"Knoten werden aktualisiert...\",
  \"status.loaded_nodes\": \"{{count}} Knoten geladen\",
  \"status.refresh_failed\": \"Aktualisierung fehlgeschlagen ({{source}}): {{error}}\",
  \"status.refresh_disconnected\": \"Verbindung zum Aktualisierungs-Thread verloren\",
  \"status.refresh_error_source.node_discovery\": \"Knotensuche\",
  \"status.scene_applied\": \"Szene angewendet\",
  \"ui.bus.monitor\": \"Monitor-Mix\",
  \"ui.bus.stream\": \"Stream-Mix\",
  \"ui.bus.chat\": \"Chat-Mix\",
  \"ui.bus.fx_return\": \"FX-Rückweg\",
  \"ui.bus.generic\": \"Mix {{index}}\",
  \"ui.button.add_input\": \"Eingang hinzufügen\",
  \"ui.button.add_input_hint\": \"Weiteren Eingangskanal anlegen\",
  \"ui.button.doctor\": \"Diagnose\",
  \"ui.button.refresh_nodes\": \"Knoten aktualisieren\",
  \"ui.channel.id\": \"ID {{id}}\",
  \"ui.channel.monitor_send\": \"Monitor-Send\",
  \"ui.channel.mute\": \"Stumm\",
  \"ui.channel.stream_send\": \"Stream-Send\",
  \"ui.channel.unmute\": \"Laut\",
  \"ui.device.unassigned\": \"Nicht zugewiesen\",
  \"ui.input.default_name\": \"Eingang {{index}}\",
  \"ui.inputs.empty\": \"Noch keine Eingangskanäle.\",
  \"ui.label.master_bus_level\": \"Pegel Master-Bus\",
  \"ui.label.mix_outputs_count\": \"Mix-Ausgänge\",
  \"ui.label.monitor_mix_level\": \"Pegel Monitor-Mix\",
  \"ui.label.node_filter\": \"Filter\",
  \"ui.label.status\": \"Status:\",
  \"ui.label.stream_mix_level\": \"Pegel Stream-Mix\",
  \"ui.label.visible_channels\": \"Sichtbare Kanäle\",
  \"ui.node.channels\": \"{{count}} Kan.\",
  \"ui.node.description_format\": \"({{description}})\",
  \"ui.nodes.filter_empty\": \"Kein Kanal passt zum Filter.\",
  \"ui.nodes.visible_count\": \"{{shown}} von {{total}} Knoten\",
  \"ui.output\": \"Ausgang:\",
  \"ui.placeholder.node_filter\": \"Name, ID oder Quelle\",
  \"ui.route.summary\": \"Monitor {{monitor}} / Stream {{stream}}\",
  \"ui.scene\": \"Szene:\",
  \"ui.scene.default_streaming\": \"Standard-Streaming\",
  \"ui.section.channel_rack\": \"Kanal-Rack\",
  \"ui.section.channel_rack_subtitle\": \"Pegel und Stummschaltung je Knoten\",
  \"ui.section.mix_matrix\": \"Mix-Matrix\",
  \"ui.section.mix_matrix_subtitle\": \"Eingangskanäle und ihre Quellen\",
  \"ui.section.mix_outputs\": \"Mix-Ausgänge\",
  \"ui.section.mix_outputs_subtitle\": \"Pegel jedes Mix-Busses\",
  \"ui.section.node_browser\": \"Knoten-Browser\",
  \"ui.section.node_browser_subtitle\": \"Auf diesem System gefundene PipeWire-Knoten\",
  \"ui.section.routing_buses\": \"Routing-Busse\",
  \"ui.section.routing_buses_subtitle\": \"Ziel-Bus wählen\",
  \"ui.section.workspace_controls\": \"Arbeitsbereich\",
  \"ui.section.workspace_controls_subtitle\": \"Filter, sichtbare Kanäle und Mix-Ausgänge\"
}";

} // verus!
