//! Interface language and the strings of the OpenLink GUI in each language.
use vstd::prelude::*;

verus! {

/// Interface language.
#[derive(Debug, Clone, Copy, PartialEq, Eq, Structural)]
pub enum Locale {
    Fr,
    En,
}

impl Locale {
    /// The two-letter label of the language.
    pub fn label(&self) -> (r: &'static str)
        ensures
            r@ == (match *self {
                Locale::Fr => "FR"@,
                Locale::En => "EN"@,
            }),
    {
        match self {
            Locale::Fr => "FR",
            Locale::En => "EN",
        }
    }

    /// The other language.
    pub fn next(&self) -> (r: Locale)
        ensures
            r != *self,
            r == (match *self {
                Locale::Fr => Locale::En,
                Locale::En => Locale::Fr,
            }),
    {
        match self {
            Locale::Fr => Locale::En,
            Locale::En => Locale::Fr,
        }
    }
}

/// All translatable strings of the application; `t(locale)` gives them for
/// one language.
pub struct T {
    pub new_tab: &'static str,
    pub create_tab_prompt: &'static str,
    pub tab_not_found: &'static str,
    pub setup_title: &'static str,
    pub recent_stations: &'static str,
    pub station_type: &'static str,
    pub aircraft_dcdu: &'static str,
    pub atc: &'static str,
    pub network: &'static str,
    pub network_address_cid: &'static str,
    pub callsign: &'static str,
    pub acars_address: &'static str,
    pub all_fields_required: &'static str,
    pub status_send_error: &'static str,
    pub connection_failed: &'static str,
    pub connecting_label: &'static str,
    pub connect_label: &'static str,
    pub ground_station: &'static str,
    pub icao_placeholder: &'static str,
    pub cancel: &'static str,
    pub commands: &'static str,
    pub pilot_downlink: &'static str,
    pub no_commands_available: &'static str,
    pub received_messages: &'static str,
    pub flights: &'static str,
    pub no_flights_connected: &'static str,
    pub messages_for: &'static str,
    pub actions: &'static str,
    pub accept_logon: &'static str,
    pub reject: &'static str,
    pub flight_connected: &'static str,
    pub select_flight: &'static str,
    pub conn_management: &'static str,
    pub atc_uplink: &'static str,
    pub contact_station: &'static str,
    pub transfer_to: &'static str,
    pub target_station_placeholder: &'static str,
    pub end_service: &'static str,
    pub no_messages: &'static str,
}

/// Every string of the table is the French one.
pub open spec fn french(r: T) -> bool {
    &&& r.new_tab@ == "Nouveau"@
    &&& r.create_tab_prompt@ == "Créez un nouvel onglet pour commencer."@
    &&& r.tab_not_found@ == "Onglet introuvable"@
    &&& r.setup_title@ == "Configuration de la station"@
    &&& r.recent_stations@ == "Stations récentes"@
    &&& r.station_type@ == "Type de station"@
    &&& r.aircraft_dcdu@ == " ✈ Avion (DCDU)"@
    &&& r.atc@ == " 🗼 ATC"@
    &&& r.network@ == "Réseau"@
    &&& r.network_address_cid@ == "Adresse réseau (CID)"@
    &&& r.callsign@ == "Callsign"@
    &&& r.acars_address@ == "Adresse ACARS"@
    &&& r.all_fields_required@ == "Tous les champs sont requis."@
    &&& r.status_send_error@ == "Erreur envoi status"@
    &&& r.connection_failed@ == "Connexion échouée"@
    &&& r.connecting_label@ == "Connexion…"@
    &&& r.connect_label@ == "Connecter"@
    &&& r.ground_station@ == "Station sol"@
    &&& r.icao_placeholder@ == "ICAO (ex: LFPG)"@
    &&& r.cancel@ == "ANNULER"@
    &&& r.commands@ == "Commandes"@
    &&& r.pilot_downlink@ == "PILOT DOWNLINK"@
    &&& r.no_commands_available@ == "(Aucune commande disponible pour le moment)"@
    &&& r.received_messages@ == "Messages reçus"@
    &&& r.flights@ == "Vols"@
    &&& r.no_flights_connected@ == "Aucun vol connecté"@
    &&& r.messages_for@ == "Messages"@
    &&& r.actions@ == "Actions"@
    &&& r.accept_logon@ == "✓ Accepter LOGON"@
    &&& r.reject@ == "✗ Rejeter"@
    &&& r.flight_connected@ == "Vol connecté"@
    &&& r.select_flight@ == "Sélectionnez un vol dans la liste"@
    &&& r.conn_management@ == "Gestion connexion"@
    &&& r.atc_uplink@ == "ATC UPLINK"@
    &&& r.contact_station@ == "Contacter station"@
    &&& r.transfer_to@ == "Transférer vers"@
    &&& r.target_station_placeholder@ == "Station (ex: LFPG)"@
    &&& r.end_service@ == "Fin de service"@
    &&& r.no_messages@ == "Aucun message"@
}

/// Every string of the table is the English one.
pub open spec fn english(r: T) -> bool {
    &&& r.new_tab@ == "New"@
    &&& r.create_tab_prompt@ == "Create a new tab to get started."@
    &&& r.tab_not_found@ == "Tab not found"@
    &&& r.setup_title@ == "Station configuration"@
    &&& r.recent_stations@ == "Recent stations"@
    &&& r.station_type@ == "Station type"@
    &&& r.aircraft_dcdu@ == " ✈ Aircraft (DCDU)"@
    &&& r.atc@ == " 🗼 ATC"@
    &&& r.network@ == "Network"@
    &&& r.network_address_cid@ == "Network address (CID)"@
    &&& r.callsign@ == "Callsign"@
    &&& r.acars_address@ == "ACARS address"@
    &&& r.all_fields_required@ == "All fields are required."@
    &&& r.status_send_error@ == "Status send error"@
    &&& r.connection_failed@ == "Connection failed"@
    &&& r.connecting_label@ == "Connecting…"@
    &&& r.connect_label@ == "Connect"@
    &&& r.ground_station@ == "Ground station"@
    &&& r.icao_placeholder@ == "ICAO (e.g. EGLL)"@
    &&& r.cancel@ == "CANCEL"@
    &&& r.commands@ == "Commands"@
    &&& r.pilot_downlink@ == "PILOT DOWNLINK"@
    &&& r.no_commands_available@ == "(No commands available yet)"@
    &&& r.received_messages@ == "Received messages"@
    &&& r.flights@ == "Flights"@
    &&& r.no_flights_connected@ == "No flights connected"@
    &&& r.messages_for@ == "Messages"@
    &&& r.actions@ == "Actions"@
    &&& r.accept_logon@ == "✓ Accept LOGON"@
    &&& r.reject@ == "✗ Reject"@
    &&& r.flight_connected@ == "Flight connected"@
    &&& r.select_flight@ == "Select a flight from the list"@
    &&& r.conn_management@ == "Connection mgmt"@
    &&& r.atc_uplink@ == "ATC UPLINK"@
    &&& r.contact_station@ == "Contact station"@
    &&& r.transfer_to@ == "Transfer to"@
    &&& r.target_station_placeholder@ == "Station (e.g. EGLL)"@
    &&& r.end_service@ == "End service"@
    &&& r.no_messages@ == "No messages"@
}

/// The strings of the interface in the given language.
pub fn t(locale: Locale) -> (r: T)
    ensures
        locale == Locale::Fr ==> french(r),
        locale == Locale::En ==> english(r),
{
    match locale {
        Locale::Fr => T {
            new_tab: "Nouveau",
            create_tab_prompt: "Créez un nouvel onglet pour commencer.",
            tab_not_found: "Onglet introuvable",
            setup_title: "Configuration de la station",
            recent_stations: "Stations récentes",
            station_type: "Type de station",
            aircraft_dcdu: " ✈ Avion (DCDU)",
            atc: " 🗼 ATC",
            network: "Réseau",
            network_address_cid: "Adresse réseau (CID)",
            callsign: "Callsign",
            acars_address: "Adresse ACARS",
            all_fields_required: "Tous les champs sont requis.",
            status_send_error: "Erreur envoi status",
            connection_failed: "Connexion échouée",
            connecting_label: "Connexion…",
            connect_label: "Connecter",
            ground_station: "Station sol",
            icao_placeholder: "ICAO (ex: LFPG)",
            cancel: "ANNULER",
            commands: "Commandes",
            pilot_downlink: "PILOT DOWNLINK",
            no_commands_available: "(Aucune commande disponible pour le moment)",
            received_messages: "Messages reçus",
            flights: "Vols",
            no_flights_connected: "Aucun vol connecté",
            messages_for: "Messages",
            actions: "Actions",
            accept_logon: "✓ Accepter LOGON",
            reject: "✗ Rejeter",
            flight_connected: "Vol connecté",
            select_flight: "Sélectionnez un vol dans la liste",
            conn_management: "Gestion connexion",
            atc_uplink: "ATC UPLINK",
            contact_station: "Contacter station",
            transfer_to: "Transférer vers",
            target_station_placeholder: "Station (ex: LFPG)",
            end_service: "Fin de service",
            no_messages: "Aucun message",
        },
        Locale::En => T {
            new_tab: "New",
            create_tab_prompt: "Create a new tab to get started.",
            tab_not_found: "Tab not found",
            setup_title: "Station configuration",
            recent_stations: "Recent stations",
            station_type: "Station type",
            aircraft_dcdu: " ✈ Aircraft (DCDU)",
            atc: " 🗼 ATC",
            network: "Network",
            network_address_cid: "Network address (CID)",
            callsign: "Callsign",
            acars_address: "ACARS address",
            all_fields_required: "All fields are required.",
            status_send_error: "Status send error",
            connection_failed: "Connection failed",
            connecting_label: "Connecting…",
            connect_label: "Connect",
            ground_station: "Ground station",
            icao_placeholder: "ICAO (e.g. EGLL)",
            cancel: "CANCEL",
            commands: "Commands",
            pilot_downlink: "PILOT DOWNLINK",
            no_commands_available: "(No commands available yet)",
            received_messages: "Received messages",
            flights: "Flights",
            no_flights_connected: "No flights connected",
            messages_for: "Messages",
            actions: "Actions",
            accept_logon: "✓ Accept LOGON",
            reject: "✗ Reject",
            flight_connected: "Flight connected",
            select_flight: "Select a flight from the list",
            conn_management: "Connection mgmt",
            atc_uplink: "ATC UPLINK",
            contact_station: "Contact station",
            transfer_to: "Transfer to",
            target_station_placeholder: "Station (e.g. EGLL)",
            end_service: "End service",
            no_messages: "No messages",
        },
    }
}

} // verus!
